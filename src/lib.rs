//! Dialect-aware address handling for a resource-oriented smart-contract
//! language: resolving each network's address literals to canonical addresses,
//! rewriting source text to the canonical literal form with a map back to the
//! original positions, preparing compilation, selecting the bytecode basis of a
//! binary, and producing the canonical state diff of a run.
use vstd::prelude::*;

pub mod address;
pub mod ss58;
pub mod bech32_wallet;
pub mod dialect;
pub mod rewrite;
pub mod basis;
pub mod compile;
pub mod diff;
pub mod canonical;

verus! {

} // verus!
