//! The seedable random source the mutators draw from.
use libafl_bolts::rands::Rand;
use vstd::prelude::*;

pub use libafl_bolts::rands::StdRand;

verus! {

/// The generator type of `libafl_bolts` (`StdRand`), opaque here: it is
/// only handed to the wrappers below.
#[verifier::external_type_specification]
#[verifier::external_body]
pub struct ExStdRand(libafl_bolts::rands::RomuDuoJrRand);

/// Relies on `libafl_bolts::rands::Rand::between`: a value in the closed
/// range `[lo, hi]` (it adds to `lo` a value below `hi - lo + 1`, which must
/// therefore not wrap to zero).
#[verifier::external_body]
pub(crate) fn between(rand: &mut StdRand, lo: usize, hi: usize) -> (r: usize)
    requires
        lo <= hi,
        hi - lo < usize::MAX,
    ensures
        lo <= r <= hi,
{
    rand.between(lo, hi)
}

/// Relies on `libafl_bolts::rands::Rand::next`: the next 64 random bits.
/// Any value may come back.
#[verifier::external_body]
pub(crate) fn next_u64(rand: &mut StdRand) -> u64 {
    rand.next()
}

/// Relies on `libafl_bolts::rands::RomuDuoJrRand::with_seed`: a generator
/// whose sequence is fixed by `seed`.
#[verifier::external_body]
pub(crate) fn seeded(seed: u64) -> StdRand {
    StdRand::with_seed(seed)
}

/// Relies on `libafl_bolts::rands::Rand::set_seed`: restarts the sequence
/// of `rand` from `seed`.
#[verifier::external_body]
pub(crate) fn reseed(rand: &mut StdRand, seed: u64) {
    rand.set_seed(seed)
}

/// Relies on `rand_core::RngCore::fill_bytes`, which `libafl_bolts`
/// implements for its generators: overwrites the bytes of `dest` with random
/// ones; a slice keeps its length.
#[verifier::external_body]
pub(crate) fn fill_bytes(rand: &mut StdRand, dest: &mut Vec<u8>)
    ensures
        final(dest)@.len() == old(dest)@.len(),
{
    rand_core::RngCore::fill_bytes(rand, dest.as_mut_slice())
}

} // verus!
