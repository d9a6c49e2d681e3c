//! Partition identity and canonical UUID spelling.

use vstd::prelude::*;
use vstd::string::*;

use crate::domain::text::text_of_ascii;

verus! {

/// The sixteen octets that name one partition.
#[derive(Debug, Clone, Copy, PartialEq, Eq, PartialOrd, Ord, Hash)]
pub struct PartitionId {
    pub octets: [u8; 16],
}

/// Why a text or an octet string names no partition.
#[derive(Debug, Clone, Copy, PartialEq, Eq, Structural)]
pub enum PartitionIdError {
    Malformed,
    Nil,
}

impl PartitionIdError {
    /// The message shown for this failure.
    pub fn to_string(&self) -> (message: String)
        ensures
            message@ == (match *self {
                PartitionIdError::Malformed => "partition id is not a lowercase hyphenated UUID"@,
                PartitionIdError::Nil => "partition id is nil"@,
            }),
    {
        match *self {
            PartitionIdError::Malformed => String::from_str(
                "partition id is not a lowercase hyphenated UUID",
            ),
            PartitionIdError::Nil => String::from_str("partition id is nil"),
        }
    }
}

/// The lowercase hexadecimal digit of a nibble.
pub open spec fn hex_digit(nibble: int) -> u8 {
    if nibble < 10 {
        (48 + nibble) as u8
    } else {
        (87 + nibble) as u8
    }
}

proof fn lemma_hex_digit_injective(left: int, right: int)
    requires
        0 <= left < 16,
        0 <= right < 16,
        hex_digit(left) == hex_digit(right),
    ensures
        left == right,
{
}

/// The places of the four hyphens in a spelled UUID.
pub open spec fn is_hyphen_place(place: int) -> bool {
    place == 8 || place == 13 || place == 18 || place == 23
}

/// How many hyphens stand before a place.
pub open spec fn hyphens_before(place: int) -> int {
    if place <= 8 {
        0
    } else if place <= 13 {
        1
    } else if place <= 18 {
        2
    } else if place <= 23 {
        3
    } else {
        4
    }
}

/// The byte of a spelled UUID at a place.
pub open spec fn uuid_byte(octets: Seq<u8>, place: int) -> u8 {
    if is_hyphen_place(place) {
        45
    } else {
        let digit = place - hyphens_before(place);
        let octet = octets[digit / 2];
        hex_digit(
            if digit % 2 == 0 {
                octet as int / 16
            } else {
                octet as int % 16
            },
        )
    }
}

/// The lowercase hyphenated spelling of sixteen octets.
pub open spec fn uuid_text(octets: Seq<u8>) -> Seq<u8> {
    Seq::new(36, |place: int| uuid_byte(octets, place))
}

/// The place of an octet's first digit.
pub open spec fn octet_place(octet: int) -> int {
    if octet < 4 {
        2 * octet
    } else if octet < 6 {
        2 * octet + 1
    } else if octet < 8 {
        2 * octet + 2
    } else if octet < 10 {
        2 * octet + 3
    } else {
        2 * octet + 4
    }
}

/// Two octet strings with one spelling are the same.
pub proof fn lemma_uuid_text_injective(left: Seq<u8>, right: Seq<u8>)
    requires
        left.len() == 16,
        right.len() == 16,
        uuid_text(left) == uuid_text(right),
    ensures
        left == right,
{
    assert forall|k: int| 0 <= k < 16 implies left[k] == right[k] by {
        let place = octet_place(k);
        let left_text = uuid_text(left);
        let right_text = uuid_text(right);
        assert(left_text[place] == uuid_byte(left, place));
        assert(left_text[place + 1] == uuid_byte(left, place + 1));
        assert(right_text[place] == uuid_byte(right, place));
        assert(right_text[place + 1] == uuid_byte(right, place + 1));
        assert(uuid_byte(left, place) == hex_digit(left[k] as int / 16));
        assert(uuid_byte(left, place + 1) == hex_digit(left[k] as int % 16));
        assert(uuid_byte(right, place) == hex_digit(right[k] as int / 16));
        assert(uuid_byte(right, place + 1) == hex_digit(right[k] as int % 16));
        lemma_hex_digit_injective(left[k] as int / 16, right[k] as int / 16);
        lemma_hex_digit_injective(left[k] as int % 16, right[k] as int % 16);
    }
    assert(left =~= right);
}

/// A spelled UUID is ASCII and holds no slash.
pub proof fn lemma_uuid_text_bytes(octets: Seq<u8>)
    requires
        octets.len() == 16,
    ensures
        crate::domain::text::all_ascii(uuid_text(octets)),
        forall|i: int| 0 <= i < uuid_text(octets).len() ==> uuid_text(octets)[i] != 47,
{
}

impl PartitionId {
    /// Nil is reserved.
    pub open spec fn wf(self) -> bool {
        self.octets@ != seq![0u8; 16]
    }

    /// The partition that a text spells.
    pub open spec fn spec_parse(text: Seq<u8>) -> Result<Self, PartitionIdError> {
        if exists|id: PartitionId| text == uuid_text(#[trigger] id.octets@) {
            let id = choose|id: PartitionId| text == uuid_text(#[trigger] id.octets@);
            if id.wf() {
                Ok(id)
            } else {
                Err(PartitionIdError::Nil)
            }
        } else {
            Err(PartitionIdError::Malformed)
        }
    }

    /// Parsing a canonical spelling gives back the partition that was spelled.
    pub proof fn law_spelling_round_trips(self)
        ensures
            Self::spec_parse(uuid_text(self.octets@)) == (if self.wf() {
                Ok::<Self, PartitionIdError>(self)
            } else {
                Err(PartitionIdError::Nil)
            }),
    {
        let text = uuid_text(self.octets@);
        let id = choose|id: PartitionId| text == uuid_text(#[trigger] id.octets@);
        lemma_uuid_text_injective(id.octets@, self.octets@);
        assert(id.octets == self.octets);
    }

    /// Reads a lowercase hyphenated UUID.
    pub fn parse_bytes(input: &[u8]) -> (id: Result<Self, PartitionIdError>)
        ensures
            id == Self::spec_parse(input@),
            id matches Ok(id) ==> id.wf(),
    {
        if input.len() != 36 {
            return Err(PartitionIdError::Malformed);
        }
        if input[8] != 45 || input[13] != 45 || input[18] != 45 || input[23] != 45 {
            proof {
                assert forall|id: PartitionId| input@ != uuid_text(#[trigger] id.octets@) by {
                    let text = uuid_text(id.octets@);
                    assert(text[8] == 45 && text[13] == 45 && text[18] == 45 && text[23] == 45);
                }
            }
            return Err(PartitionIdError::Malformed);
        }
        let mut octets: [u8; 16] = [0u8;16];
        let mut k: usize = 0;
        while k < 16
            invariant
                k <= 16,
                input@.len() == 36,
                forall|j: int|
                    #![trigger octets@[j]]
                    0 <= j < k ==> {
                        &&& input@[octet_place(j)] == hex_digit(octets@[j] as int / 16)
                        &&& input@[octet_place(j) + 1] == hex_digit(octets@[j] as int % 16)
                    },
            decreases 16 - k,
        {
            let place: usize = if k < 4 {
                2 * k
            } else if k < 6 {
                2 * k + 1
            } else if k < 8 {
                2 * k + 2
            } else if k < 10 {
                2 * k + 3
            } else {
                2 * k + 4
            };
            let high = hex_nibble(input[place]);
            let low = hex_nibble(input[place + 1]);
            match (high, low) {
                (Some(high), Some(low)) => {
                    let octet: u8 = high * 16 + low;
                    octets[k] = octet;
                },
                _ => {
                    proof {
                        assert forall|id: PartitionId| input@ != uuid_text(#[trigger] id.octets@) by {
                            let text = uuid_text(id.octets@);
                            let octet = id.octets@[k as int];
                            assert(text[place as int] == hex_digit(octet as int / 16));
                            assert(text[place + 1] == hex_digit(octet as int % 16));
                        }
                    }
                    return Err(PartitionIdError::Malformed);
                },
            }
            k += 1;
        }
        let id = PartitionId { octets };
        proof {
            let text = uuid_text(octets@);
            assert forall|place: int| 0 <= place < 36 implies input@[place] == text[place] by {
                if !is_hyphen_place(place) {
                    let digit = place - hyphens_before(place);
                    let j = digit / 2;
                    assert(octets@[j] == octets@[j]);
                    assert(octet_place(j) == place || octet_place(j) + 1 == place);
                }
            }
            assert(input@ =~= text);
            id.law_spelling_round_trips();
        }
        if id.is_nil() {
            return Err(PartitionIdError::Nil);
        }
        Ok(id)
    }

    /// Reads a lowercase hyphenated UUID.
    pub fn parse_text(input: &str) -> (id: Result<Self, PartitionIdError>)
        ensures
            id == Self::spec_parse(input.spec_bytes()),
            id matches Ok(id) ==> id.wf(),
    {
        Self::parse_bytes(input.as_bytes())
    }

    fn is_nil(&self) -> (nil: bool)
        ensures
            nil == !self.wf(),
    {
        let mut k: usize = 0;
        while k < 16
            invariant
                k <= 16,
                forall|j: int| 0 <= j < k ==> self.octets@[j] == 0,
            decreases 16 - k,
        {
            if self.octets[k] != 0 {
                assert(self.octets@ != seq![0u8; 16]);
                return false;
            }
            k += 1;
        }
        assert(self.octets@ =~= seq![0u8; 16]);
        true
    }

    /// The sixteen octets.
    pub fn as_bytes(&self) -> (octets: &[u8; 16])
        ensures
            *octets == self.octets,
    {
        &self.octets
    }

    /// Decides whether two identities name the same partition.
    pub fn is_same(&self, other: &Self) -> (same: bool)
        ensures
            same == (*self == *other),
    {
        let mut k: usize = 0;
        while k < 16
            invariant
                k <= 16,
                forall|j: int| 0 <= j < k ==> self.octets@[j] == other.octets@[j],
            decreases 16 - k,
        {
            if self.octets[k] != other.octets[k] {
                return false;
            }
            k += 1;
        }
        assert(self.octets@ =~= other.octets@);
        assert(self.octets == other.octets);
        true
    }

    /// Appends the canonical spelling.
    pub fn push_spelling(&self, out: &mut Vec<u8>)
        ensures
            final(out)@ == old(out)@ + uuid_text(self.octets@),
    {
        let mut place: usize = 0;
        let ghost text = uuid_text(self.octets@);
        assert(out@ =~= old(out)@ + text.take(0));
        while place < 36
            invariant
                place <= 36,
                text == uuid_text(self.octets@),
                out@ == old(out)@ + text.take(place as int),
            decreases 36 - place,
        {
            let byte: u8 = if place == 8 || place == 13 || place == 18 || place == 23 {
                45
            } else {
                let hyphens: usize = if place <= 8 {
                    0
                } else if place <= 13 {
                    1
                } else if place <= 18 {
                    2
                } else if place <= 23 {
                    3
                } else {
                    4
                };
                let digit: usize = place - hyphens;
                let octet: u8 = self.octets[digit / 2];
                let nibble: u8 = if digit % 2 == 0 {
                    octet / 16
                } else {
                    octet % 16
                };
                if nibble < 10 {
                    48 + nibble
                } else {
                    87 + nibble
                }
            };
            assert(byte == text[place as int]);
            out.push(byte);
            assert(out@ =~= old(out)@ + text.take(place + 1));
            place += 1;
        }
        assert(text.take(36) =~= text);
    }

    /// The canonical spelling.
    pub fn to_string(&self) -> (text: String)
        ensures
            text@ == crate::domain::text::ascii_chars(uuid_text(self.octets@)),
    {
        let mut out: Vec<u8> = Vec::new();
        self.push_spelling(&mut out);
        assert(out@ =~= uuid_text(self.octets@));
        proof {
            lemma_uuid_text_bytes(self.octets@);
        }
        text_of_ascii(out.as_slice())
    }
}

impl std::str::FromStr for PartitionId {
    type Err = PartitionIdError;

    fn from_str(input: &str) -> (parsed: Result<Self, PartitionIdError>)
        ensures
            parsed == PartitionId::spec_parse(input.spec_bytes()),
    {
        PartitionId::parse_text(input)
    }
}

impl TryFrom<[u8; 16]> for PartitionId {
    type Error = PartitionIdError;

    fn try_from(octets: [u8; 16]) -> (id: Result<Self, PartitionIdError>) {
        let id = PartitionId { octets };
        if id.is_nil() {
            return Err(PartitionIdError::Nil);
        }
        Ok(id)
    }
}

impl vstd::std_specs::convert::TryFromSpecImpl<[u8; 16]> for PartitionId {
    open spec fn obeys_try_from_spec() -> bool {
        true
    }

    open spec fn try_from_spec(octets: [u8; 16]) -> Result<Self, PartitionIdError> {
        if (PartitionId { octets }).wf() {
            Ok(PartitionId { octets })
        } else {
            Err(PartitionIdError::Nil)
        }
    }
}

/// The nibble that a lowercase hexadecimal digit stands for.
fn hex_nibble(character: u8) -> (nibble: Option<u8>)
    ensures
        match nibble {
            Some(nibble) => nibble < 16 && character == hex_digit(nibble as int),
            None => forall|n: int| 0 <= n < 16 ==> character != #[trigger] hex_digit(n),
        },
{
    if 48 <= character && character <= 57 {
        Some(character - 48)
    } else if 97 <= character && character <= 102 {
        Some(character - 87)
    } else {
        None
    }
}

} // verus!
