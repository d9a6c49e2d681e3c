//! How coordinates read in messages.

use vstd::prelude::*;

use crate::domain::coordinate::{BatchId, OwnerToken, SealGeneration};
use crate::domain::text::number_text;

verus! {

/// `SealGeneration(5)`.
pub open spec fn generation_chars(generation: SealGeneration) -> Seq<char> {
    "SealGeneration("@ + crate::domain::text::number_chars(generation.value as nat) + ")"@
}

/// `BatchId(5)`.
pub open spec fn batch_chars(batch: BatchId) -> Seq<char> {
    "BatchId("@ + crate::domain::text::number_chars(batch.value as nat) + ")"@
}

/// `OwnerToken(SealGeneration(5))`.
pub open spec fn owner_chars(owner: OwnerToken) -> Seq<char> {
    "OwnerToken("@ + generation_chars(owner.generation) + ")"@
}

pub fn generation_text(generation: SealGeneration) -> (text: String)
    ensures
        text@ == generation_chars(generation),
{
    let mut text = String::from_str("SealGeneration(");
    text.append(number_text(generation.value).as_str());
    text.append(")");
    text
}

pub fn batch_text(batch: BatchId) -> (text: String)
    ensures
        text@ == batch_chars(batch),
{
    let mut text = String::from_str("BatchId(");
    text.append(number_text(batch.value).as_str());
    text.append(")");
    text
}

pub fn owner_text(owner: OwnerToken) -> (text: String)
    ensures
        text@ == owner_chars(owner),
{
    let mut text = String::from_str("OwnerToken(");
    text.append(generation_text(owner.generation).as_str());
    text.append(")");
    text
}

} // verus!
