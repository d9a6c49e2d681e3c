//! Nonzero storage coordinates and their shared failures.

use std::cmp::Ordering;

use vstd::prelude::*;
use vstd::std_specs::cmp::PartialOrdSpec;
use vstd::std_specs::convert::TryFromSpec;

verus! {

/// How two numbers are ordered.
pub open spec fn number_order(left: u64, right: u64) -> Ordering {
    if left < right {
        Ordering::Less
    } else if left == right {
        Ordering::Equal
    } else {
        Ordering::Greater
    }
}

fn order_numbers(left: u64, right: u64) -> (order: Ordering)
    ensures
        order == number_order(left, right),
{
    if left < right {
        Ordering::Less
    } else if left == right {
        Ordering::Equal
    } else {
        Ordering::Greater
    }
}

/// A nonzero storage coordinate cannot be incremented beyond `u64::MAX`.
#[derive(Debug, Clone, Copy, PartialEq, Eq, Structural)]
pub struct CoordinateExhausted;

impl CoordinateExhausted {
    /// The message shown for this failure.
    pub fn to_string(&self) -> (message: String)
        ensures
            message@ == "storage coordinate is exhausted"@,
    {
        String::from_str("storage coordinate is exhausted")
    }
}

/// Zero is reserved and is not a durable coordinate.
#[derive(Debug, Clone, Copy, PartialEq, Eq, Structural)]
pub struct ZeroCoordinate;

impl ZeroCoordinate {
    /// The message shown for this failure.
    pub fn to_string(&self) -> (message: String)
        ensures
            message@ == "storage coordinate is zero"@,
    {
        String::from_str("storage coordinate is zero")
    }
}

/// One generation of the permanent Seal chain.
#[derive(Debug, Clone, Copy, PartialEq, Eq, Ord, Hash, Structural)]
pub struct SealGeneration {
    pub value: u64,
}

impl SealGeneration {
    /// Zero is reserved.
    pub open spec fn wf(self) -> bool {
        self.value != 0
    }

    /// The first generation.
    pub open spec fn spec_genesis() -> Self {
        SealGeneration { value: 1 }
    }

    pub fn genesis() -> (generation: Self)
        ensures
            generation == Self::spec_genesis(),
            generation.wf(),
    {
        SealGeneration { value: 1 }
    }

    pub fn get(self) -> (value: u64)
        ensures
            value == self.value,
    {
        self.value
    }

    /// The generation directly after this one; the last generation has none.
    pub fn successor(self) -> (next: Result<Self, CoordinateExhausted>)
        ensures
            next == Self::spec_successor(self),
            next matches Ok(generation) ==> generation.wf() && generation.value > self.value,
    {
        if self.value == u64::MAX {
            return Err(CoordinateExhausted);
        }
        Ok(SealGeneration { value: self.value + 1 })
    }

    pub open spec fn spec_successor(self) -> Result<Self, CoordinateExhausted> {
        if self.value == u64::MAX {
            Err(CoordinateExhausted)
        } else {
            Ok(SealGeneration { value: (self.value + 1) as u64 })
        }
    }
}

impl PartialOrd for SealGeneration {
    /// Coordinates are ordered by their numbers.
    fn partial_cmp(&self, other: &Self) -> (order: Option<Ordering>) {
        Some(order_numbers(self.value, other.value))
    }
}

impl vstd::std_specs::cmp::PartialOrdSpecImpl for SealGeneration {
    open spec fn obeys_partial_cmp_spec() -> bool {
        true
    }

    open spec fn partial_cmp_spec(&self, other: &Self) -> Option<Ordering> {
        Some(number_order(self.value, other.value))
    }
}

impl TryFrom<u64> for SealGeneration {
    type Error = ZeroCoordinate;

    fn try_from(value: u64) -> (generation: Result<Self, ZeroCoordinate>) {
        if value == 0 {
            Err(ZeroCoordinate)
        } else {
            Ok(SealGeneration { value })
        }
    }
}

impl vstd::std_specs::convert::TryFromSpecImpl<u64> for SealGeneration {
    open spec fn obeys_try_from_spec() -> bool {
        true
    }

    open spec fn try_from_spec(value: u64) -> Result<Self, ZeroCoordinate> {
        if value == 0 {
            Err(ZeroCoordinate)
        } else {
            Ok(SealGeneration { value })
        }
    }
}

/// One coordinate of the write-ahead log.
#[derive(Debug, Clone, Copy, PartialEq, Eq, Ord, Hash, Structural)]
pub struct BatchId {
    pub value: u64,
}

impl BatchId {
    /// Zero is virtual genesis, not an object coordinate.
    pub open spec fn wf(self) -> bool {
        self.value != 0
    }

    pub fn get(self) -> (value: u64)
        ensures
            value == self.value,
    {
        self.value
    }

    /// The batch directly after this one; the last batch has none.
    pub fn successor(self) -> (next: Result<Self, CoordinateExhausted>)
        ensures
            next == Self::spec_successor(self),
            next matches Ok(batch) ==> batch.wf() && batch.value > self.value,
    {
        if self.value == u64::MAX {
            return Err(CoordinateExhausted);
        }
        Ok(BatchId { value: self.value + 1 })
    }

    pub open spec fn spec_successor(self) -> Result<Self, CoordinateExhausted> {
        if self.value == u64::MAX {
            Err(CoordinateExhausted)
        } else {
            Ok(BatchId { value: (self.value + 1) as u64 })
        }
    }
}

impl PartialOrd for BatchId {
    /// Coordinates are ordered by their numbers.
    fn partial_cmp(&self, other: &Self) -> (order: Option<Ordering>) {
        Some(order_numbers(self.value, other.value))
    }
}

impl vstd::std_specs::cmp::PartialOrdSpecImpl for BatchId {
    open spec fn obeys_partial_cmp_spec() -> bool {
        true
    }

    open spec fn partial_cmp_spec(&self, other: &Self) -> Option<Ordering> {
        Some(number_order(self.value, other.value))
    }
}

impl TryFrom<u64> for BatchId {
    type Error = ZeroCoordinate;

    fn try_from(value: u64) -> (batch: Result<Self, ZeroCoordinate>) {
        if value == 0 {
            Err(ZeroCoordinate)
        } else {
            Ok(BatchId { value })
        }
    }
}

impl vstd::std_specs::convert::TryFromSpecImpl<u64> for BatchId {
    open spec fn obeys_try_from_spec() -> bool {
        true
    }

    open spec fn try_from_spec(value: u64) -> Result<Self, ZeroCoordinate> {
        if value == 0 {
            Err(ZeroCoordinate)
        } else {
            Ok(BatchId { value })
        }
    }
}

/// Partition-local stream identity.
#[derive(Debug, Clone, Copy, PartialEq, Eq, Ord, Hash, Structural)]
pub struct StreamUid {
    pub value: u64,
}

impl StreamUid {
    /// Zero is reserved.
    pub open spec fn wf(self) -> bool {
        self.value != 0
    }

    pub fn get(self) -> (value: u64)
        ensures
            value == self.value,
    {
        self.value
    }
}

impl PartialOrd for StreamUid {
    /// Coordinates are ordered by their numbers.
    fn partial_cmp(&self, other: &Self) -> (order: Option<Ordering>) {
        Some(order_numbers(self.value, other.value))
    }
}

impl vstd::std_specs::cmp::PartialOrdSpecImpl for StreamUid {
    open spec fn obeys_partial_cmp_spec() -> bool {
        true
    }

    open spec fn partial_cmp_spec(&self, other: &Self) -> Option<Ordering> {
        Some(number_order(self.value, other.value))
    }
}

impl TryFrom<u64> for StreamUid {
    type Error = ZeroCoordinate;

    fn try_from(value: u64) -> (uid: Result<Self, ZeroCoordinate>) {
        if value == 0 {
            Err(ZeroCoordinate)
        } else {
            Ok(StreamUid { value })
        }
    }
}

impl vstd::std_specs::convert::TryFromSpecImpl<u64> for StreamUid {
    open spec fn obeys_try_from_spec() -> bool {
        true
    }

    open spec fn try_from_spec(value: u64) -> Result<Self, ZeroCoordinate> {
        if value == 0 {
            Err(ZeroCoordinate)
        } else {
            Ok(StreamUid { value })
        }
    }
}

/// The generation whose claim owns a stretch of the log.
#[derive(Debug, Clone, Copy, PartialEq, Eq, Ord, Hash, Structural)]
pub struct OwnerToken {
    pub generation: SealGeneration,
}

impl OwnerToken {
    pub open spec fn wf(self) -> bool {
        self.generation.wf()
    }

    pub fn generation(self) -> (generation: SealGeneration)
        ensures
            generation == self.generation,
    {
        self.generation
    }
}

impl PartialOrd for OwnerToken {
    /// Owners are ordered by their generations.
    fn partial_cmp(&self, other: &Self) -> (order: Option<Ordering>) {
        Some(order_numbers(self.generation.value, other.generation.value))
    }
}

impl vstd::std_specs::cmp::PartialOrdSpecImpl for OwnerToken {
    open spec fn obeys_partial_cmp_spec() -> bool {
        true
    }

    open spec fn partial_cmp_spec(&self, other: &Self) -> Option<Ordering> {
        Some(number_order(self.generation.value, other.generation.value))
    }
}

impl From<SealGeneration> for OwnerToken {
    fn from(generation: SealGeneration) -> (owner: Self) {
        OwnerToken { generation }
    }
}

impl vstd::std_specs::convert::FromSpecImpl<SealGeneration> for OwnerToken {
    open spec fn obeys_from_spec() -> bool {
        true
    }

    open spec fn from_spec(generation: SealGeneration) -> Self {
        OwnerToken { generation }
    }
}

/// Every number but zero is a generation's, no generation has the number zero, and generations are
/// equal and ordered exactly as their numbers are.
pub proof fn law_generations_are_their_numbers(number: u64, left: SealGeneration, right: SealGeneration)
    requires
        left.wf(),
        right.wf(),
    ensures
        number != 0 ==> SealGeneration::try_from_spec(number) == Ok::<_, ZeroCoordinate>(
            SealGeneration { value: number },
        ),
        number == 0 ==> SealGeneration::try_from_spec(number) == Err::<SealGeneration, _>(ZeroCoordinate),
        left.value >= 1,
        (left == right) == (left.value == right.value),
        left.partial_cmp_spec(&right) == Some(number_order(left.value, right.value)),
{
}

/// Every number but zero is a batch's, no batch has the number zero, and batches are
/// equal and ordered exactly as their numbers are.
pub proof fn law_batches_are_their_numbers(number: u64, left: BatchId, right: BatchId)
    requires
        left.wf(),
        right.wf(),
    ensures
        number != 0 ==> BatchId::try_from_spec(number) == Ok::<_, ZeroCoordinate>(
            BatchId { value: number },
        ),
        number == 0 ==> BatchId::try_from_spec(number) == Err::<BatchId, _>(ZeroCoordinate),
        left.value >= 1,
        (left == right) == (left.value == right.value),
        left.partial_cmp_spec(&right) == Some(number_order(left.value, right.value)),
{
}

/// Every number but zero is a stream's, no stream has the number zero, and streams are
/// equal and ordered exactly as their numbers are.
pub proof fn law_streams_are_their_numbers(number: u64, left: StreamUid, right: StreamUid)
    requires
        left.wf(),
        right.wf(),
    ensures
        number != 0 ==> StreamUid::try_from_spec(number) == Ok::<_, ZeroCoordinate>(
            StreamUid { value: number },
        ),
        number == 0 ==> StreamUid::try_from_spec(number) == Err::<StreamUid, _>(ZeroCoordinate),
        left.value >= 1,
        (left == right) == (left.value == right.value),
        left.partial_cmp_spec(&right) == Some(number_order(left.value, right.value)),
{
}

} // verus!
