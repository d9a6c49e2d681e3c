//! Protocol values carried through storage, and who decides their grammar.
//!
//! Storage carries stream paths, content types and expiry instants without owning
//! their grammar. A decoder takes the grammar as a function: it hands over each
//! field that the durable bytes hold and rejects the object when a field is refused.
//! The named length bounds hold of every grammar: a longer field is refused unasked.

use vstd::prelude::*;
use vstd::string::*;

use crate::domain::bounds::{CONTENT_TYPE_BYTES_MAX, STREAM_PATH_BYTES_MAX};

verus! {

/// Whether a stream still accepts appends.
#[derive(Debug, Clone, Copy, PartialEq, Eq, Hash, Structural)]
pub enum StreamLifecycle {
    Open,
    Closed,
}

/// A sliding time to live, in whole seconds.
#[derive(Debug, Clone, Copy, PartialEq, Eq, Hash, Structural)]
pub struct StreamTtl {
    pub seconds: u64,
}

/// An absolute expiry instant, in nanoseconds since the Unix epoch.
#[derive(Debug, Clone, Copy, PartialEq, Eq, Hash, Structural)]
pub struct ExpiresAt {
    pub unix_nanoseconds: i128,
}

/// When a stream expires.
#[derive(Debug, Clone, Copy, PartialEq, Eq, Hash, Structural)]
pub enum ExpiryPolicy {
    Never,
    SlidingTtl(StreamTtl),
    AbsoluteExpiry(ExpiresAt),
}

impl ExpiryPolicy {
    /// A time to live is nonzero.
    pub open spec fn wf(self) -> bool {
        self matches ExpiryPolicy::SlidingTtl(ttl) ==> ttl.seconds != 0
    }

    /// The grammar accepts the policy's instant, if it has one.
    pub open spec fn accepted(self, grammar: spec_fn(ProtocolText) -> bool) -> bool {
        self matches ExpiryPolicy::AbsoluteExpiry(at) ==> grammar(
            ProtocolText::ExpiresAt(at.unix_nanoseconds),
        )
    }
}

/// A content type in its canonical spelling.
#[derive(Debug, PartialEq, Eq, Hash)]
pub struct StreamContentType {
    pub text: String,
}

impl View for StreamContentType {
    type V = Seq<char>;

    open spec fn view(&self) -> Seq<char> {
        self.text@
    }
}

impl Clone for StreamContentType {
    fn clone(&self) -> (copy: Self)
        ensures
            copy@ == self@,
            copy == *self,
    {
        StreamContentType { text: self.text.clone() }
    }
}

impl StreamContentType {
    /// Fails when the spelling is too long or the grammar refuses it.
    pub fn new<Grammar: Fn(ProtocolField<'_>) -> bool>(text: String, grammar: &Grammar) -> (kind:
        Option<Self>)
        requires
            is_total(*grammar),
        ensures
            kind matches Some(kind) ==> kind@ == text@ && content_type_fits(text@),
            forall|accepts: spec_fn(ProtocolText) -> bool|
                #[trigger] decides(*grammar, accepts) ==> kind is Some == content_type_accepted(
                    text@,
                    accepts,
                ),
    {
        if text.as_str().as_bytes().len() > CONTENT_TYPE_BYTES_MAX {
            return None;
        }
        if grammar(ProtocolField::ContentType(text.as_str())) {
            Some(StreamContentType { text })
        } else {
            None
        }
    }

    /// Whether the content type is inside the protocol's bounds.
    pub fn is_fitting(&self) -> (fits: bool)
        ensures
            fits == content_type_fits(self@),
    {
        self.text.as_str().as_bytes().len() <= CONTENT_TYPE_BYTES_MAX
    }

    pub fn as_str(&self) -> (text: &str)
        ensures
            text@ == self@,
    {
        self.text.as_str()
    }

    pub fn to_string(&self) -> (text: String)
        ensures
            text@ == self@,
    {
        self.text.clone()
    }
}

/// One field whose grammar belongs to the protocol.
#[derive(Debug, Clone, Copy, PartialEq, Eq)]
pub enum ProtocolField<'a> {
    StreamPath(&'a str),
    ContentType(&'a str),
    ExpiresAt(i128),
}

/// What a protocol field says.
pub enum ProtocolText {
    StreamPath(Seq<u8>),
    ContentType(Seq<char>),
    ExpiresAt(i128),
}

impl<'a> ProtocolField<'a> {
    pub open spec fn text(self) -> ProtocolText {
        match self {
            ProtocolField::StreamPath(path) => ProtocolText::StreamPath(path.spec_bytes()),
            ProtocolField::ContentType(kind) => ProtocolText::ContentType(kind@),
            ProtocolField::ExpiresAt(at) => ProtocolText::ExpiresAt(at),
        }
    }
}

/// The grammar can be asked about every field.
pub open spec fn is_total<Grammar: Fn(ProtocolField<'_>) -> bool>(grammar: Grammar) -> bool {
    forall|field: ProtocolField<'_>| grammar.requires((field,))
}

/// The grammar accepts exactly the fields that `accepts` holds of.
pub open spec fn decides<Grammar: Fn(ProtocolField<'_>) -> bool>(
    grammar: Grammar,
    accepts: spec_fn(ProtocolText) -> bool,
) -> bool {
    forall|field: ProtocolField<'_>, verdict: bool|
        grammar.ensures((field,), verdict) ==> verdict == accepts(field.text())
}

/// `std::str::from_utf8`: the text whose bytes these are, exactly when they are
/// valid UTF-8.
#[verifier::external_body]
pub(crate) fn utf8_text<'a>(bytes: &'a [u8]) -> (text: Option<&'a str>)
    ensures
        text is Some == vstd::utf8::valid_utf8(bytes@),
        text matches Some(text) ==> text.spec_bytes() == bytes@,
{
    std::str::from_utf8(bytes).ok()
}

/// A path is UTF-8 and no longer than a stream path may be.
pub open spec fn path_fits(path: Seq<u8>) -> bool {
    path.len() <= STREAM_PATH_BYTES_MAX && vstd::utf8::valid_utf8(path)
}

/// A content type is no longer than a content type may be.
pub open spec fn content_type_fits(text: Seq<char>) -> bool {
    vstd::utf8::encode_utf8(text).len() <= CONTENT_TYPE_BYTES_MAX
}

/// A stored path is UTF-8, not too long, that the grammar accepts.
pub open spec fn path_accepted(path: Seq<u8>, accepts: spec_fn(ProtocolText) -> bool) -> bool {
    &&& path_fits(path)
    &&& accepts(ProtocolText::StreamPath(path))
}

/// A stored content type is not too long and the grammar accepts it.
pub open spec fn content_type_accepted(
    text: Seq<char>,
    accepts: spec_fn(ProtocolText) -> bool,
) -> bool {
    content_type_fits(text) && accepts(ProtocolText::ContentType(text))
}

/// Asks the grammar about stored path bytes.
pub fn is_path_accepted<Grammar: Fn(ProtocolField<'_>) -> bool>(
    path: &[u8],
    grammar: &Grammar,
) -> (accepted: bool)
    requires
        is_total(*grammar),
    ensures
        forall|accepts: spec_fn(ProtocolText) -> bool|
            #[trigger] decides(*grammar, accepts) ==> accepted == path_accepted(path@, accepts),
        accepted ==> path_fits(path@),
{
    if path.len() > STREAM_PATH_BYTES_MAX {
        return false;
    }
    match utf8_text(path) {
        Some(text) => grammar(ProtocolField::StreamPath(text)),
        None => false,
    }
}

} // verus!
