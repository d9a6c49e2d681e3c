//! The authority that one published Seal grants its author.

use vstd::prelude::*;

use crate::domain::coordinate::{OwnerToken, SealGeneration};

verus! {

/// A Seal generation that this process published itself.
#[derive(Debug, Clone, Copy, PartialEq, Eq, Structural)]
pub struct AuthoredClaim {
    pub generation: SealGeneration,
    pub owner: OwnerToken,
}

impl AuthoredClaim {
    /// The owner is the claimed generation.
    pub open spec fn wf(self) -> bool {
        &&& self.generation.wf()
        &&& self.owner.generation == self.generation
    }

    pub fn new(generation: SealGeneration) -> (claim: Self)
        ensures
            claim.generation == generation,
            claim.owner.generation == generation,
            generation.wf() ==> claim.wf(),
    {
        AuthoredClaim { generation, owner: OwnerToken::from(generation) }
    }

    pub fn generation(&self) -> (generation: SealGeneration)
        ensures
            generation == self.generation,
    {
        self.generation
    }

    pub fn owner(&self) -> (owner: OwnerToken)
        ensures
            owner == self.owner,
    {
        self.owner
    }
}

} // verus!
