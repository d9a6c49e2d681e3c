//! Shared archive boundary for durable storage objects.
//!
//! A durable object is an rkyv archive of plain values: little-endian integers,
//! relative pointers, no alignment. The library turns its objects into those plain
//! values and back; rkyv turns the plain values into bytes and back.

use vstd::prelude::*;

use crate::domain::text::number_text;

verus! {

/// A durable object could not be encoded.
#[derive(Debug, Clone, Copy, PartialEq, Eq, Structural)]
pub enum EncodeError {
    Serialization,
    EncodedBytesOverMax { bytes_max: usize },
}

impl EncodeError {
    pub open spec fn spec_message(self) -> Seq<char> {
        match self {
            EncodeError::Serialization => "domain value could not be archived"@,
            EncodeError::EncodedBytesOverMax { bytes_max } => "encoded value exceeds the "@
                + crate::domain::text::number_chars(bytes_max as nat) + "-byte bound"@,
        }
    }

    /// The message shown for this failure.
    pub fn to_string(&self) -> (message: String)
        ensures
            message@ == self.spec_message(),
    {
        match *self {
            EncodeError::Serialization => String::from_str("domain value could not be archived"),
            EncodeError::EncodedBytesOverMax { bytes_max } => {
                let mut message = String::from_str("encoded value exceeds the ");
                message.append(number_text(bytes_max as u64).as_str());
                message.append("-byte bound");
                message
            },
        }
    }
}

/// A durable object could not be decoded.
#[derive(Debug, Clone, Copy, PartialEq, Eq, Structural)]
pub enum DecodeError {
    EncodedBytesOverMax { bytes_max: usize, bytes_actual: usize },
    MalformedArchive,
    InvalidBody,
    IdentityMismatch,
}

impl DecodeError {
    pub open spec fn spec_message(self) -> Seq<char> {
        match self {
            DecodeError::EncodedBytesOverMax { bytes_max, bytes_actual } => "encoded value is "@
                + crate::domain::text::number_chars(bytes_actual as nat) + " bytes; the bound is "@
                + crate::domain::text::number_chars(bytes_max as nat),
            DecodeError::MalformedArchive => "archive is structurally malformed"@,
            DecodeError::InvalidBody => "archive violates a domain invariant"@,
            DecodeError::IdentityMismatch => "body identity differs from the durable location"@,
        }
    }

    /// The message shown for this failure.
    pub fn to_string(&self) -> (message: String)
        ensures
            message@ == self.spec_message(),
    {
        match *self {
            DecodeError::EncodedBytesOverMax { bytes_max, bytes_actual } => {
                let mut message = String::from_str("encoded value is ");
                message.append(number_text(bytes_actual as u64).as_str());
                message.append(" bytes; the bound is ");
                message.append(number_text(bytes_max as u64).as_str());
                message
            },
            DecodeError::MalformedArchive => String::from_str("archive is structurally malformed"),
            DecodeError::InvalidBody => String::from_str("archive violates a domain invariant"),
            DecodeError::IdentityMismatch => String::from_str(
                "body identity differs from the durable location",
            ),
        }
    }
}

/// Complete encoded bytes exceeded the named decode bound.
#[derive(Debug, Clone, Copy, PartialEq, Eq, Structural)]
pub struct EncodedBytesOverMax {
    pub bytes_max: usize,
    pub bytes_actual: usize,
}

impl From<EncodedBytesOverMax> for DecodeError {
    fn from(error: EncodedBytesOverMax) -> (decode: Self) {
        DecodeError::EncodedBytesOverMax {
            bytes_max: error.bytes_max,
            bytes_actual: error.bytes_actual,
        }
    }
}

impl vstd::std_specs::convert::FromSpecImpl<EncodedBytesOverMax> for DecodeError {
    open spec fn obeys_from_spec() -> bool {
        true
    }

    open spec fn from_spec(error: EncodedBytesOverMax) -> Self {
        DecodeError::EncodedBytesOverMax {
            bytes_max: error.bytes_max,
            bytes_actual: error.bytes_actual,
        }
    }
}

/// Checks the complete length of encoded bytes before anything reads them.
pub fn decode_bound(bytes: &[u8], bytes_max: usize) -> (checked: Result<(), EncodedBytesOverMax>)
    ensures
        match checked {
            Ok(_) => bytes@.len() <= bytes_max,
            Err(error) => bytes@.len() > bytes_max && error == (EncodedBytesOverMax {
                bytes_max,
                bytes_actual: bytes@.len() as usize,
            }),
        },
{
    if bytes.len() > bytes_max {
        return Err(EncodedBytesOverMax { bytes_max, bytes_actual: bytes.len() });
    }
    Ok(())
}

/// One table reference: birth generation, owner claim, counter, ordinal, store,
/// object length.
pub type RawTable = (u64, u64, u64, u32, u8, u64);

/// One Seal: partition, generation, replay point, Directory tree, Ledger tree.
pub type RawSeal = ([u8; 16], u64, (u8, u64, u64), Vec<Vec<RawTable>>, Vec<Vec<RawTable>>);

/// What a Seal archive holds.
pub type SealArchive = (
    Seq<u8>,
    u64,
    (u8, u64, u64),
    Seq<Seq<RawTable>>,
    Seq<Seq<RawTable>>,
);

/// The bytes that the tables of one tree take in an archive: a fixed frame for each
/// run and one for each table.
pub open spec fn tree_room(tree: Seq<Seq<RawTable>>) -> nat
    decreases tree.len(),
{
    if tree.len() == 0 {
        0
    } else {
        tree_room(tree.drop_last()) + 8 + 37 * tree.last().len()
    }
}

/// The bytes that a Seal archive takes.
pub open spec fn seal_room(value: SealArchive) -> nat {
    57 + tree_room(value.3) + tree_room(value.4)
}

/// The bytes that rkyv writes for a Seal archive.
pub uninterp spec fn seal_archive_bytes(value: SealArchive) -> Seq<u8>;

/// The Seal archive that rkyv reads in bytes; none when they are malformed.
pub uninterp spec fn seal_archive_value(bytes: Seq<u8>) -> Option<SealArchive>;

/// `rkyv::api::high::to_bytes_in` into a buffer of `bytes_max` bytes: it succeeds
/// exactly when the archive fits the buffer; what it wrote is not empty, takes no
/// more than a frame of fixed size for each part and the bytes of the texts, and reads
/// back as the value.
#[verifier::external_body]
pub(crate) fn write_seal_archive(value: &RawSeal, bytes_max: usize) -> (written: Option<Vec<u8>>)
    requires
        bytes_max <= 0x3fff_ffff,
    ensures
        written is Some == (seal_archive_bytes(value.deep_view()).len() <= bytes_max),
        seal_room(value.deep_view()) <= bytes_max ==> written is Some,
        written matches Some(bytes) ==> {
            &&& bytes@ == seal_archive_bytes(value.deep_view())
            &&& bytes@.len() > 0
            &&& bytes@.len() <= seal_room(value.deep_view())
            &&& seal_archive_value(bytes@) == Some(value.deep_view())
        },
{
    let mut space = vec![0u8; bytes_max];
    let buffer = rkyv::ser::writer::Buffer::from(space.as_mut_slice());
    match rkyv::api::high::to_bytes_in::<_, rkyv::rancor::Failure>(value, buffer) {
        Ok(buffer) => Some(buffer.to_vec()),
        Err(_failure) => None,
    }
}

/// `rkyv::from_bytes`: checks the bytes as an archive and reads the value in them.
#[verifier::external_body]
pub(crate) fn read_seal_archive(bytes: &[u8]) -> (value: Option<RawSeal>)
    ensures
        match value {
            Some(value) => seal_archive_value(bytes@) == Some(value.deep_view()),
            None => seal_archive_value(bytes@) is None,
        },
{
    rkyv::from_bytes::<RawSeal, rkyv::rancor::Failure>(bytes).ok()
}

/// One operation fact: variant, path, stream, content type, expiry, lifecycle.
pub type RawFact = (u8, Vec<u8>, u64, String, (u8, u128), u8);

/// What an archived fact holds.
pub type FactArchive = (u8, Seq<u8>, u64, Seq<char>, (u8, u128), u8);

/// One log object: partition, batch, owner, facts; a fence is the variant without.
pub type RawWal = ([u8; 16], u64, u64, Result<Vec<RawFact>, ()>);

/// What a WAL archive holds.
pub type WalArchive = (Seq<u8>, u64, u64, Option<Seq<FactArchive>>);

/// The plain value of a log object.
pub open spec fn wal_value(raw: RawWal) -> WalArchive {
    (
        raw.0@,
        raw.1,
        raw.2,
        match raw.3 {
            Ok(facts) => Some(facts.deep_view()),
            Err(_) => None,
        },
    )
}

/// One operation fact of a RUN that creates every stream open: no lifecycle.
pub type RawOpenFact = (u8, Vec<u8>, u64, String, (u8, u128));

/// What such a fact holds.
pub type OpenFactArchive = (u8, Seq<u8>, u64, Seq<char>, (u8, u128));

/// One log object that creates every stream open.
pub type RawOpenWal = ([u8; 16], u64, u64, Result<Vec<RawOpenFact>, ()>);

/// What the archive of such an object holds.
pub type OpenWalArchive = (Seq<u8>, u64, u64, Option<Seq<OpenFactArchive>>);

/// The plain value of a log object that creates every stream open.
pub open spec fn open_wal_value(raw: RawOpenWal) -> OpenWalArchive {
    (
        raw.0@,
        raw.1,
        raw.2,
        match raw.3 {
            Ok(facts) => Some(facts.deep_view()),
            Err(_) => None,
        },
    )
}

/// The fact with the lifecycle of an open stream.
pub open spec fn open_fact(fact: OpenFactArchive) -> FactArchive {
    (fact.0, fact.1, fact.2, fact.3, fact.4, 0)
}

/// The facts with the lifecycle of an open stream.
pub open spec fn open_facts(facts: Seq<OpenFactArchive>) -> Seq<FactArchive> {
    facts.map(|_i: int, fact: OpenFactArchive| open_fact(fact))
}

/// The object, every fact with the lifecycle of an open stream.
pub open spec fn open_wal(value: OpenWalArchive) -> WalArchive {
    (
        value.0,
        value.1,
        value.2,
        match value.3 {
            Some(facts) => Some(open_facts(facts)),
            None => None,
        },
    )
}

/// The most bytes that facts take in an archive: a fixed frame for each fact and its
/// two texts.
pub open spec fn facts_room(facts: Seq<FactArchive>) -> nat
    decreases facts.len(),
{
    if facts.len() == 0 {
        0
    } else {
        let fact = facts.last();
        facts_room(facts.drop_last()) + 43 + fact.1.len() + vstd::utf8::encode_utf8(fact.3).len()
    }
}

/// The most bytes that a WAL archive takes.
pub open spec fn wal_room(value: WalArchive) -> nat {
    41 + match value.3 {
        Some(facts) => facts_room(facts),
        None => 0,
    }
}

/// The text in the unread content-type field of a close or a delete: the eight NUL
/// characters whose inline archive is eight zero bytes.
pub open spec fn blank_text() -> Seq<char> {
    seq!['\0'; 8]
}

/// A fact of this variant is a close or a delete, which has no content type.
pub open spec fn is_textless(variant: u8) -> bool {
    variant == 1 || variant == 2
}

/// Every fact without a content type has the blank one.
pub open spec fn unread_texts_blank(value: WalArchive) -> bool {
    value.3 matches Some(facts) ==> forall|i: int|
        0 <= i < facts.len() && is_textless(facts[i].0) ==> (#[trigger] facts[i]).3 == blank_text()
}

/// The number in four little-endian bytes.
pub open spec fn word_at(bytes: Seq<u8>, at: int) -> int {
    bytes[at] + 0x100 * bytes[at + 1] + 0x1_0000 * bytes[at + 2] + 0x100_0000 * bytes[at + 3]
}

/// The signed number in four little-endian bytes.
pub open spec fn offset_at(bytes: Seq<u8>, at: int) -> int {
    if word_at(bytes, at) < 0x8000_0000 {
        word_at(bytes, at)
    } else {
        word_at(bytes, at) - 0x1_0000_0000
    }
}

/// Where a RUN's frame says that its facts' frames start. The object's own frame ends
/// the bytes; it ends with the variant, the distance from there to the facts' frames,
/// and their number.
pub open spec fn frames_start(bytes: Seq<u8>) -> int {
    bytes.len() - 8 + offset_at(bytes, bytes.len() - 8)
}

/// The number of facts that a RUN's frame says.
pub open spec fn frames_count(bytes: Seq<u8>) -> int {
    word_at(bytes, bytes.len() - 4)
}

/// The bytes hold no frames that end in a lifecycle: no facts at all, or facts whose
/// shorter frames reach up to the object's own.
pub open spec fn is_open_layout(bytes: Seq<u8>) -> bool {
    ||| bytes.len() < 41
    ||| bytes[bytes.len() - 9] != 0
    ||| frames_start(bytes) + 42 * frames_count(bytes) == bytes.len() - 41
}

/// The bytes of one fact's frame: the last is the lifecycle, where there is one.
pub open spec fn frame_width(bytes: Seq<u8>) -> int {
    if is_open_layout(bytes) {
        42
    } else {
        43
    }
}

/// Where the frames of a RUN's facts lie: the first byte of the first and the end of
/// the last.
pub open spec fn fact_frames(bytes: Seq<u8>) -> Option<(int, int)> {
    let start = frames_start(bytes);
    let end = start + frame_width(bytes) * frames_count(bytes);
    if bytes.len() >= 41 && bytes[bytes.len() - 9] == 0 && 0 <= start && end <= bytes.len() - 41 {
        Some((start, end))
    } else {
        None
    }
}

/// Where in its frame the byte at a distance from the first frame lies.
pub open spec fn frame_offset(bytes: Seq<u8>, distance: int) -> int {
    if is_open_layout(bytes) {
        distance % 42
    } else {
        distance % 43
    }
}

/// The byte lies in the content-type field of a close or a delete, which says nothing.
pub open spec fn is_unread(bytes: Seq<u8>, at: int) -> bool {
    match fact_frames(bytes) {
        Some((start, end)) => {
            let within = frame_offset(bytes, at - start);
            &&& start <= at < end
            &&& 17 <= within < 25
            &&& is_textless(bytes[at - within])
        },
        None => false,
    }
}

/// The bytes with zeros where nothing is read.
pub open spec fn blanked(bytes: Seq<u8>) -> Seq<u8> {
    Seq::new(
        bytes.len(),
        |at: int|
            if is_unread(bytes, at) {
                0
            } else {
                bytes[at]
            },
    )
}

fn read_word(bytes: &[u8], at: usize) -> (word: i64)
    requires
        at + 4 <= bytes@.len(),
    ensures
        word == word_at(bytes@, at as int),
        0 <= word < 0x1_0000_0000,
{
    bytes[at] as i64 + 0x100 * (bytes[at + 1] as i64) + 0x1_0000 * (bytes[at + 2] as i64)
        + 0x100_0000 * (bytes[at + 3] as i64)
}

/// Where the facts' frames start, and how many there are.
fn read_frames(bytes: &[u8]) -> (frames: (i64, i64))
    requires
        41 <= bytes@.len() <= 0x3fff_ffff,
    ensures
        frames.0 == frames_start(bytes@),
        frames.1 == frames_count(bytes@),
        -0x8000_0000 <= frames.0 < 0x1_0000_0000,
        0 <= frames.1 < 0x1_0000_0000,
{
    let len: usize = bytes.len();
    let word: i64 = read_word(bytes, len - 8);
    let offset: i64 = if word < 0x8000_0000 {
        word
    } else {
        word - 0x1_0000_0000
    };
    (len as i64 - 8 + offset, read_word(bytes, len - 4))
}

/// Where the facts' frames lie, and how wide each is.
struct Frames {
    start: usize,
    end: usize,
    width: usize,
}

impl Frames {
    spec fn found_in(self, bytes: Seq<u8>) -> bool {
        &&& fact_frames(bytes) == Some((self.start as int, self.end as int))
        &&& self.end <= bytes.len()
        &&& self.width == frame_width(bytes)
    }
}

fn find_fact_frames(bytes: &[u8]) -> (frames: Option<Frames>)
    requires
        bytes@.len() <= 0x3fff_ffff,
    ensures
        match frames {
            Some(frames) => frames.found_in(bytes@),
            None => fact_frames(bytes@) is None,
        },
{
    let len: usize = bytes.len();
    if len < 41 || bytes[len - 9] != 0 {
        return None;
    }
    let (start, count) = read_frames(bytes);
    let (width, end): (usize, i64) = if start + 42 * count == len as i64 - 41 {
        (42, start + 42 * count)
    } else {
        (43, start + 43 * count)
    };
    if 0 <= start && end <= len as i64 - 41 {
        Some(Frames { start: start as usize, end: end as usize, width })
    } else {
        None
    }
}

/// Whether the bytes hold no frames that end in a lifecycle.
pub(crate) fn has_open_layout(bytes: &[u8]) -> (open: bool)
    requires
        bytes@.len() <= 0x3fff_ffff,
    ensures
        open == is_open_layout(bytes@),
{
    let len: usize = bytes.len();
    if len < 41 || bytes[len - 9] != 0 {
        return true;
    }
    let (start, count) = read_frames(bytes);
    start + 42 * count == len as i64 - 41
}

/// Writes zeros over the content-type fields of closes and deletes, so that whatever
/// stands there reads as a text.
pub(crate) fn blank_unread(bytes: &[u8]) -> (blank: Vec<u8>)
    requires
        bytes@.len() <= 0x3fff_ffff,
    ensures
        blank@ == blanked(bytes@),
{
    let frames = find_fact_frames(bytes);
    let mut blank: Vec<u8> = Vec::new();
    let mut at: usize = 0;
    while at < bytes.len()
        invariant
            at <= bytes@.len(),
            match frames {
                Some(frames) => frames.found_in(bytes@),
                None => fact_frames(bytes@) is None,
            },
            blank@ == blanked(bytes@).take(at as int),
        decreases bytes.len() - at,
    {
        let unread = match &frames {
            Some(frames) => if frames.start <= at && at < frames.end {
                let within: usize = if frames.width == 42 {
                    (at - frames.start) % 42
                } else {
                    (at - frames.start) % 43
                };
                let variant: u8 = bytes[at - within];
                17 <= within && within < 25 && (variant == 1 || variant == 2)
            } else {
                false
            },
            None => false,
        };
        assert(unread == is_unread(bytes@, at as int));
        blank.push(
            if unread {
                0
            } else {
                bytes[at]
            },
        );
        assert(blanked(bytes@).take(at + 1) =~= blanked(bytes@).take(at as int).push(
            blanked(bytes@)[at as int],
        ));
        at += 1;
    }
    assert(blanked(bytes@).take(at as int) =~= blanked(bytes@));
    blank
}

/// The bytes that rkyv writes for a WAL archive.
pub uninterp spec fn wal_archive_bytes(value: WalArchive) -> Seq<u8>;

/// The WAL archive that rkyv reads in bytes; none when they are malformed.
pub uninterp spec fn wal_archive_value(bytes: Seq<u8>) -> Option<WalArchive>;

/// `rkyv::api::high::to_bytes_in` into a buffer of `bytes_max` bytes: it succeeds
/// exactly when the archive fits the buffer; what it wrote is not empty, takes no
/// more than a frame of fixed size for each part and the bytes of the texts, and reads
/// back as the value. The facts' frames, each with its lifecycle, are written directly
/// before the object's own frame, where `fact_frames` finds them, and a text of eight
/// NUL characters is written inline as eight zero bytes, so where every fact without a
/// content type has the blank one there is nothing left to blank.
#[verifier::external_body]
pub(crate) fn write_wal_archive(value: &RawWal, bytes_max: usize) -> (written: Option<Vec<u8>>)
    requires
        bytes_max <= 0x3fff_ffff,
    ensures
        written is Some == (wal_archive_bytes(wal_value(*value)).len() <= bytes_max),
        wal_room(wal_value(*value)) <= bytes_max ==> written is Some,
        written matches Some(bytes) ==> {
            &&& bytes@ == wal_archive_bytes(wal_value(*value))
            &&& bytes@.len() > 0
            &&& bytes@.len() <= wal_room(wal_value(*value))
            &&& wal_archive_value(bytes@) == Some(wal_value(*value))
            &&& value.3 matches Ok(facts) ==> facts@.len() > 0 ==> !is_open_layout(bytes@)
            &&& unread_texts_blank(wal_value(*value)) ==> blanked(bytes@) == bytes@
        },
{
    let mut space = vec![0u8; bytes_max];
    let buffer = rkyv::ser::writer::Buffer::from(space.as_mut_slice());
    match rkyv::api::high::to_bytes_in::<_, rkyv::rancor::Failure>(value, buffer) {
        Ok(buffer) => Some(buffer.to_vec()),
        Err(_failure) => None,
    }
}

/// `rkyv::from_bytes`: checks the bytes as an archive and reads the value in them.
#[verifier::external_body]
pub(crate) fn read_wal_archive(bytes: &[u8]) -> (value: Option<RawWal>)
    ensures
        match value {
            Some(value) => wal_archive_value(bytes@) == Some(wal_value(value)),
            None => wal_archive_value(bytes@) is None,
        },
{
    rkyv::from_bytes::<RawWal, rkyv::rancor::Failure>(bytes).ok()
}

/// The bytes that rkyv writes for the archive of an object that creates every stream
/// open.
pub uninterp spec fn open_wal_archive_bytes(value: OpenWalArchive) -> Seq<u8>;

/// The archive without lifecycles that rkyv reads in bytes; none when they are
/// malformed.
pub uninterp spec fn open_wal_archive_value(bytes: Seq<u8>) -> Option<OpenWalArchive>;

/// `rkyv::api::high::to_bytes_in` into a buffer of `bytes_max` bytes, as in
/// [`write_wal_archive`], for facts without a lifecycle: their frames, one byte shorter
/// each, are written directly before the object's own frame.
#[verifier::external_body]
pub(crate) fn write_open_wal_archive(value: &RawOpenWal, bytes_max: usize) -> (written: Option<
    Vec<u8>,
>)
    requires
        bytes_max <= 0x3fff_ffff,
    ensures
        written is Some == (open_wal_archive_bytes(open_wal_value(*value)).len() <= bytes_max),
        wal_room(open_wal(open_wal_value(*value))) <= bytes_max ==> written is Some,
        written matches Some(bytes) ==> {
            &&& bytes@ == open_wal_archive_bytes(open_wal_value(*value))
            &&& bytes@.len() > 0
            &&& bytes@.len() <= wal_room(open_wal(open_wal_value(*value)))
            &&& open_wal_archive_value(bytes@) == Some(open_wal_value(*value))
            &&& is_open_layout(bytes@)
            &&& unread_texts_blank(open_wal(open_wal_value(*value))) ==> blanked(bytes@) == bytes@
        },
{
    let mut space = vec![0u8; bytes_max];
    let buffer = rkyv::ser::writer::Buffer::from(space.as_mut_slice());
    match rkyv::api::high::to_bytes_in::<_, rkyv::rancor::Failure>(value, buffer) {
        Ok(buffer) => Some(buffer.to_vec()),
        Err(_failure) => None,
    }
}

/// `rkyv::from_bytes`: checks the bytes as an archive without lifecycles and reads the
/// value in them.
#[verifier::external_body]
pub(crate) fn read_open_wal_archive(bytes: &[u8]) -> (value: Option<RawOpenWal>)
    ensures
        match value {
            Some(value) => open_wal_archive_value(bytes@) == Some(open_wal_value(value)),
            None => open_wal_archive_value(bytes@) is None,
        },
{
    rkyv::from_bytes::<RawOpenWal, rkyv::rancor::Failure>(bytes).ok()
}

/// One Directory row: path, entry variant, stream.
pub type RawDirectoryRow = (String, (u8, u64));

/// One Directory table: partition, birth generation, owner claim, counter, ordinal,
/// rows.
pub type RawDirectory = ([u8; 16], (u64, u64, u64, u32), Vec<RawDirectoryRow>);

/// What a Directory table archive holds.
pub type DirectoryArchive = (Seq<u8>, (u64, u64, u64, u32), Seq<(Seq<char>, (u8, u64))>);

/// The most bytes that Directory rows take in an archive: a fixed frame for each row
/// and its path.
pub open spec fn directory_rows_room(rows: Seq<(Seq<char>, (u8, u64))>) -> nat
    decreases rows.len(),
{
    if rows.len() == 0 {
        0
    } else {
        directory_rows_room(rows.drop_last()) + 17 + vstd::utf8::encode_utf8(rows.last().0).len()
    }
}

/// The most bytes that a Directory table archive takes.
pub open spec fn directory_room(value: DirectoryArchive) -> nat {
    52 + directory_rows_room(value.2)
}

/// The bytes that rkyv writes for a Directory table archive.
pub uninterp spec fn directory_archive_bytes(value: DirectoryArchive) -> Seq<u8>;

/// The Directory table archive that rkyv reads in bytes; none when they are
/// malformed.
pub uninterp spec fn directory_archive_value(bytes: Seq<u8>) -> Option<DirectoryArchive>;

/// `rkyv::api::high::to_bytes_in` into a buffer of `bytes_max` bytes: it succeeds
/// exactly when the archive fits the buffer; what it wrote is not empty, takes no
/// more than a frame of fixed size for each part and the bytes of the texts, and reads
/// back as the value.
#[verifier::external_body]
pub(crate) fn write_directory_archive(value: &RawDirectory, bytes_max: usize) -> (written: Option<
    Vec<u8>,
>)
    requires
        bytes_max <= 0x3fff_ffff,
    ensures
        written is Some == (directory_archive_bytes(value.deep_view()).len() <= bytes_max),
        directory_room(value.deep_view()) <= bytes_max ==> written is Some,
        written matches Some(bytes) ==> {
            &&& bytes@ == directory_archive_bytes(value.deep_view())
            &&& bytes@.len() > 0
            &&& bytes@.len() <= directory_room(value.deep_view())
            &&& directory_archive_value(bytes@) == Some(value.deep_view())
        },
{
    let mut space = vec![0u8; bytes_max];
    let buffer = rkyv::ser::writer::Buffer::from(space.as_mut_slice());
    match rkyv::api::high::to_bytes_in::<_, rkyv::rancor::Failure>(value, buffer) {
        Ok(buffer) => Some(buffer.to_vec()),
        Err(_failure) => None,
    }
}

/// `rkyv::from_bytes`: checks the bytes as an archive and reads the value in them.
#[verifier::external_body]
pub(crate) fn read_directory_archive(bytes: &[u8]) -> (value: Option<RawDirectory>)
    ensures
        match value {
            Some(value) => directory_archive_value(bytes@) == Some(value.deep_view()),
            None => directory_archive_value(bytes@) is None,
        },
{
    rkyv::from_bytes::<RawDirectory, rkyv::rancor::Failure>(bytes).ok()
}

/// One stream record: content type, expiry, lifecycle, creation batch.
pub type RawRecord = (String, (u8, u128), u8, u64);

/// What an archived record holds.
pub type RecordArchive = (Seq<char>, (u8, u128), u8, u64);

/// One Ledger row: stream, record; a delete is the variant without.
pub type RawLedgerRow = (u64, Result<RawRecord, ()>);

/// What an archived Ledger row holds.
pub type LedgerRowArchive = (u64, Option<RecordArchive>);

/// One Ledger table: partition, birth generation, owner claim, counter, ordinal,
/// rows.
pub type RawLedger = ([u8; 16], (u64, u64, u64, u32), Vec<RawLedgerRow>);

/// What a Ledger table archive holds.
pub type LedgerArchive = (Seq<u8>, (u64, u64, u64, u32), Seq<LedgerRowArchive>);

/// The plain value of one Ledger row.
pub open spec fn ledger_row_value(raw: RawLedgerRow) -> LedgerRowArchive {
    (
        raw.0,
        match raw.1 {
            Ok(record) => Some(record.deep_view()),
            Err(_) => None,
        },
    )
}

/// The plain value of one Ledger table.
pub open spec fn ledger_value(raw: RawLedger) -> LedgerArchive {
    (raw.0@, raw.1, raw.2@.map(|_i: int, row: RawLedgerRow| ledger_row_value(row)))
}

/// The most bytes that Ledger rows take in an archive: a fixed frame for each row and
/// its record's content type.
pub open spec fn ledger_rows_room(rows: Seq<LedgerRowArchive>) -> nat
    decreases rows.len(),
{
    if rows.len() == 0 {
        0
    } else {
        ledger_rows_room(rows.drop_last()) + 43 + match rows.last().1 {
            Some(record) => vstd::utf8::encode_utf8(record.0).len(),
            None => 0,
        }
    }
}

/// The most bytes that a Ledger table archive takes.
pub open spec fn ledger_room(value: LedgerArchive) -> nat {
    52 + ledger_rows_room(value.2)
}

/// The bytes that rkyv writes for a Ledger table archive.
pub uninterp spec fn ledger_archive_bytes(value: LedgerArchive) -> Seq<u8>;

/// The Ledger table archive that rkyv reads in bytes; none when they are malformed.
pub uninterp spec fn ledger_archive_value(bytes: Seq<u8>) -> Option<LedgerArchive>;

/// `rkyv::api::high::to_bytes_in` into a buffer of `bytes_max` bytes: it succeeds
/// exactly when the archive fits the buffer; what it wrote is not empty, takes no
/// more than a frame of fixed size for each part and the bytes of the texts, and reads
/// back as the value.
#[verifier::external_body]
pub(crate) fn write_ledger_archive(value: &RawLedger, bytes_max: usize) -> (written: Option<Vec<u8>>)
    requires
        bytes_max <= 0x3fff_ffff,
    ensures
        written is Some == (ledger_archive_bytes(ledger_value(*value)).len() <= bytes_max),
        ledger_room(ledger_value(*value)) <= bytes_max ==> written is Some,
        written matches Some(bytes) ==> {
            &&& bytes@ == ledger_archive_bytes(ledger_value(*value))
            &&& bytes@.len() > 0
            &&& bytes@.len() <= ledger_room(ledger_value(*value))
            &&& ledger_archive_value(bytes@) == Some(ledger_value(*value))
        },
{
    let mut space = vec![0u8; bytes_max];
    let buffer = rkyv::ser::writer::Buffer::from(space.as_mut_slice());
    match rkyv::api::high::to_bytes_in::<_, rkyv::rancor::Failure>(value, buffer) {
        Ok(buffer) => Some(buffer.to_vec()),
        Err(_failure) => None,
    }
}

/// `rkyv::from_bytes`: checks the bytes as an archive and reads the value in them.
#[verifier::external_body]
pub(crate) fn read_ledger_archive(bytes: &[u8]) -> (value: Option<RawLedger>)
    ensures
        match value {
            Some(value) => ledger_archive_value(bytes@) == Some(ledger_value(value)),
            None => ledger_archive_value(bytes@) is None,
        },
{
    rkyv::from_bytes::<RawLedger, rkyv::rancor::Failure>(bytes).ok()
}

} // verus!
