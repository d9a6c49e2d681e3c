//! Table object identity vocabulary.

use vstd::prelude::*;

use crate::domain::coordinate::SealGeneration;

verus! {

/// One table object: which fresh table it is and which store it belongs to.
#[derive(Debug, Clone, Copy, PartialEq, Eq, PartialOrd, Ord, Hash, Structural)]
pub struct TableObjectId {
    pub fresh: FreshIdentity,
    pub store: StoreKind,
}

impl TableObjectId {
    pub open spec fn wf(self) -> bool {
        self.fresh.wf()
    }

    pub fn new(fresh: FreshIdentity, store: StoreKind) -> (object: Self)
        ensures
            object == (TableObjectId { fresh, store }),
    {
        TableObjectId { fresh, store }
    }

    pub fn fresh(self) -> (fresh: FreshIdentity)
        ensures
            fresh == self.fresh,
    {
        self.fresh
    }

    pub fn store(self) -> (store: StoreKind)
        ensures
            store == self.store,
    {
        self.store
    }
}

/// The generation, attempt and ordinal that no other table shares.
#[derive(Debug, Clone, Copy, PartialEq, Eq, PartialOrd, Ord, Hash, Structural)]
pub struct FreshIdentity {
    pub birth_generation: SealGeneration,
    pub attempt: AttemptId,
    pub ordinal: u32,
}

impl FreshIdentity {
    /// The owner claim predates the birth generation.
    pub open spec fn wf(self) -> bool {
        &&& self.birth_generation.wf()
        &&& self.attempt.wf()
        &&& self.attempt.owner_claim.value < self.birth_generation.value
    }

    pub open spec fn spec_new(
        birth_generation: SealGeneration,
        attempt: AttemptId,
        ordinal: u32,
    ) -> Result<Self, TableIdentityError> {
        if attempt.owner_claim.value < birth_generation.value {
            Ok(FreshIdentity { birth_generation, attempt, ordinal })
        } else {
            Err(TableIdentityError)
        }
    }

    /// Fails unless the owner claim predates the birth generation.
    pub fn new(birth_generation: SealGeneration, attempt: AttemptId, ordinal: u32) -> (fresh:
        Result<Self, TableIdentityError>)
        ensures
            fresh == Self::spec_new(birth_generation, attempt, ordinal),
            birth_generation.wf() && attempt.wf() ==> (fresh matches Ok(fresh) ==> fresh.wf()),
    {
        if attempt.owner_claim.value >= birth_generation.value {
            return Err(TableIdentityError);
        }
        Ok(FreshIdentity { birth_generation, attempt, ordinal })
    }

    pub fn birth_generation(self) -> (generation: SealGeneration)
        ensures
            generation == self.birth_generation,
    {
        self.birth_generation
    }

    pub fn attempt(self) -> (attempt: AttemptId)
        ensures
            attempt == self.attempt,
    {
        self.attempt
    }

    pub fn ordinal(self) -> (ordinal: u32)
        ensures
            ordinal == self.ordinal,
    {
        self.ordinal
    }
}

/// One attempt of one owner to write tables.
#[derive(Debug, Clone, Copy, PartialEq, Eq, PartialOrd, Ord, Hash, Structural)]
pub struct AttemptId {
    pub owner_claim: SealGeneration,
    pub local_counter: u64,
}

impl AttemptId {
    pub open spec fn wf(self) -> bool {
        self.owner_claim.wf()
    }

    pub fn new(owner_claim: SealGeneration, local_counter: u64) -> (attempt: Self)
        ensures
            attempt == (AttemptId { owner_claim, local_counter }),
    {
        AttemptId { owner_claim, local_counter }
    }

    pub fn owner_claim(self) -> (generation: SealGeneration)
        ensures
            generation == self.owner_claim,
    {
        self.owner_claim
    }

    pub fn local_counter(self) -> (counter: u64)
        ensures
            counter == self.local_counter,
    {
        self.local_counter
    }
}

/// The store that a table belongs to.
#[derive(Debug, Clone, Copy, PartialEq, Eq, PartialOrd, Ord, Hash, Structural)]
pub enum StoreKind {
    Directory,
    Ledger,
    Tally,
    Annals,
}

/// A table owner claim must predate the table's birth generation.
#[derive(Debug, Clone, Copy, PartialEq, Eq, Structural)]
pub struct TableIdentityError;

impl TableIdentityError {
    /// The message shown for this failure.
    pub fn to_string(&self) -> (message: String)
        ensures
            message@ == "table owner claim does not predate its birth generation"@,
    {
        String::from_str("table owner claim does not predate its birth generation")
    }
}

} // verus!
