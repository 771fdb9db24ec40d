//! The scaling bound: derived from the requested `scaled` factor by the
//! external sketching library, whose formula the rest of the pipeline only
//! needs as a fixed function of the factor.

use vstd::prelude::*;

use crate::sketch::HashFn;
use crate::sketch::Template;

verus! {

/// The scaling bound belonging to a scaling factor: whatever
/// `max_hash_for_scaled` computes, a fixed function of the factor alone.
pub uninterp spec fn max_hash_of_scaled(scaled: u32) -> u64;

/// Relies on sourmash::sketch::minhash::max_hash_for_scaled: its result
/// depends on the factor alone, and its source returns 0 (no bound) for a
/// factor of 0 and u64::MAX for a factor of 1.
#[verifier::external_body]
pub fn scaled_to_max_hash(scaled: u32) -> (r: u64)
    ensures
        r == max_hash_of_scaled(scaled),
        scaled == 0 ==> r == 0,
        scaled == 1 ==> r == u64::MAX,
{
    sourmash::sketch::minhash::max_hash_for_scaled(scaled)
}

/// The selection template of a run: the requested k-mer size, the fixed
/// protein hash function, and the scaling bound derived from `scaled`.
pub fn build_template(ksize: u32, scaled: u32) -> (t: Template)
    ensures
        t.ksize == ksize,
        t.hash_function == HashFn::Murmur64Protein,
        t.max_hash == max_hash_of_scaled(scaled),
{
    Template {
        ksize,
        hash_function: HashFn::Murmur64Protein,
        max_hash: scaled_to_max_hash(scaled),
    }
}

} // verus!
