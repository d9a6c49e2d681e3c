//! Verified storage vocabulary, durable codecs and engine rules.

pub mod domain;
pub mod engine;
