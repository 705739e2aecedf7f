//! Grammar-aware mutation core for text-oriented, multi-packet network protocols.
//!
//! Bytes are classified into typed tokens ([`tokens`]); token streams are
//! mutated by structure-preserving operators ([`token_mutators`],
//! [`token_ops`]) applied in random stacks ([`stream_mutator`]); several
//! protocol messages are grouped into one fuzz input with a wire framing of
//! their own ([`packets`]) and mutated as a list ([`packet_mutators`]).
//! Randomness comes from a seedable generator ([`rng`]).
use vstd::prelude::*;

pub mod rng;
pub mod tokens;
pub mod token_mutators;
pub mod token_ops;
pub mod packets;
pub mod packet_mutators;
pub mod stream_mutator;

verus! {

/// Outcome of one mutation attempt.
#[derive(Clone, Copy, Debug, PartialEq, Eq, Structural)]
pub enum MutationResult {
    Mutated,
    Skipped,
}

impl MutationResult {
    /// `Mutated` where at least one change was made.
    pub fn from_flag(mutated: bool) -> (r: MutationResult)
        ensures
            (r == MutationResult::Mutated) == mutated,
    {
        if mutated {
            MutationResult::Mutated
        } else {
            MutationResult::Skipped
        }
    }
}

} // verus!
