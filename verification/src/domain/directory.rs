//! Directory-store keys and entries.

use vstd::prelude::*;
use vstd::string::*;

use crate::domain::bounds::STREAM_PATH_BYTES_MAX;
use crate::domain::coordinate::StreamUid;
use crate::domain::protocol::{utf8_text, ProtocolField};
use crate::domain::text::{copy_bytes, is_bytes_equal, is_bytes_less};

verus! {

/// Ordered raw spelling of a canonical stream path.
#[derive(Debug, PartialEq, Eq, PartialOrd, Ord, Hash)]
pub struct DirectoryKey {
    pub bytes: Vec<u8>,
}

impl View for DirectoryKey {
    type V = Seq<u8>;

    open spec fn view(&self) -> Seq<u8> {
        self.bytes@
    }
}

impl Clone for DirectoryKey {
    fn clone(&self) -> (copy: Self)
        ensures
            copy@ == self@,
    {
        DirectoryKey { bytes: copy_bytes(self.bytes.as_slice()) }
    }
}

impl DirectoryKey {
    /// Fails when the bytes are not UTF-8, or when they are too long for a path or the
    /// grammar refuses them as one.
    pub fn new<Grammar: Fn(ProtocolField<'_>) -> bool>(bytes: Vec<u8>, grammar: &Grammar) -> (key:
        Result<Self, DirectoryKeyError>)
        requires
            crate::domain::protocol::is_total(*grammar),
        ensures
            key matches Ok(key) ==> key@ == bytes@ && crate::domain::protocol::path_fits(bytes@),
            forall|accepts: spec_fn(crate::domain::protocol::ProtocolText) -> bool|
                #[trigger] crate::domain::protocol::decides(*grammar, accepts) ==> {
                    &&& key is Ok == crate::domain::protocol::path_accepted(bytes@, accepts)
                    &&& key is Err ==> key->Err_0 == (if vstd::utf8::valid_utf8(bytes@) {
                        DirectoryKeyError::StreamPath
                    } else {
                        DirectoryKeyError::InvalidUtf8
                    })
                },
    {
        let accepted = match utf8_text(bytes.as_slice()) {
            Some(text) => grammar(ProtocolField::StreamPath(text)),
            None => {
                return Err(DirectoryKeyError::InvalidUtf8);
            },
        };
        if !accepted || bytes.len() > STREAM_PATH_BYTES_MAX {
            return Err(DirectoryKeyError::StreamPath);
        }
        Ok(DirectoryKey { bytes })
    }

    /// Whether the key is inside the protocol's bounds.
    pub fn is_fitting(&self) -> (fits: bool)
        ensures
            fits == crate::domain::protocol::path_fits(self@),
    {
        self.bytes.len() <= STREAM_PATH_BYTES_MAX && utf8_text(self.bytes.as_slice()).is_some()
    }

    pub fn as_bytes(&self) -> (bytes: &[u8])
        ensures
            bytes@ == self@,
    {
        self.bytes.as_slice()
    }

    /// Keys are ordered by their bytes.
    pub fn is_before(&self, other: &Self) -> (before: bool)
        ensures
            before == crate::domain::text::bytes_less(self@, other@),
    {
        is_bytes_less(self.bytes.as_slice(), other.bytes.as_slice())
    }

    /// Decides whether two keys spell the same path.
    pub fn is_same(&self, other: &Self) -> (same: bool)
        ensures
            same == (self@ == other@),
    {
        is_bytes_equal(self.bytes.as_slice(), other.bytes.as_slice())
    }
}

/// Byte order is a strict total order of keys: of two different keys exactly one is
/// before the other, and before is transitive.
pub proof fn law_keys_are_totally_ordered(left: Seq<u8>, right: Seq<u8>, third: Seq<u8>)
    ensures
        !crate::domain::text::bytes_less(left, left),
        crate::domain::text::bytes_less(left, right) ==> !crate::domain::text::bytes_less(
            right,
            left,
        ),
        left != right ==> crate::domain::text::bytes_less(left, right)
            || crate::domain::text::bytes_less(right, left),
        crate::domain::text::bytes_less(left, right) && crate::domain::text::bytes_less(
            right,
            third,
        ) ==> crate::domain::text::bytes_less(left, third),
{
    if crate::domain::text::bytes_less(left, left) {
        crate::domain::text::lemma_bytes_less_asymmetric(left, left);
    }
    if crate::domain::text::bytes_less(left, right) {
        crate::domain::text::lemma_bytes_less_asymmetric(left, right);
        if crate::domain::text::bytes_less(right, third) {
            crate::domain::text::lemma_bytes_less_transitive(left, right, third);
        }
    }
    crate::domain::text::lemma_bytes_less_total(left, right);
}

/// Why bytes are no Directory key.
#[derive(Debug, Clone, Copy, PartialEq, Eq, Structural)]
pub enum DirectoryKeyError {
    InvalidUtf8,
    StreamPath,
}

impl DirectoryKeyError {
    /// The message shown for this failure.
    pub fn to_string(&self) -> (message: String)
        ensures
            message@ == (match *self {
                DirectoryKeyError::InvalidUtf8 => "Directory key is not UTF-8"@,
                DirectoryKeyError::StreamPath => "Directory key is not a canonical stream id"@,
            }),
    {
        match *self {
            DirectoryKeyError::InvalidUtf8 => String::from_str("Directory key is not UTF-8"),
            DirectoryKeyError::StreamPath => String::from_str(
                "Directory key is not a canonical stream id",
            ),
        }
    }
}

/// What a path holds: a live stream or the mark of a deleted one.
#[derive(Debug, Clone, Copy, PartialEq, Eq, Structural)]
pub enum DirectoryEntry {
    Live(StreamUid),
    Tombstone(StreamUid),
}

impl DirectoryEntry {
    pub open spec fn spec_uid(self) -> StreamUid {
        match self {
            DirectoryEntry::Live(uid) => uid,
            DirectoryEntry::Tombstone(uid) => uid,
        }
    }

    pub open spec fn wf(self) -> bool {
        self.spec_uid().wf()
    }

    /// The stream that holds or held the path.
    pub fn uid(self) -> (uid: StreamUid)
        ensures
            uid == self.spec_uid(),
    {
        match self {
            DirectoryEntry::Live(uid) => uid,
            DirectoryEntry::Tombstone(uid) => uid,
        }
    }
}

} // verus!
