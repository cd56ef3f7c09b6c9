//! The random source the noise-based filters draw from: a thread-local
//! generator of the `rand` crate, reached through a narrow trusted surface.
//! Every filter states what holds of its output whatever numbers come back.

use rand::Rng;
use vstd::prelude::*;

verus! {

#[verifier::external_type_specification]
#[verifier::external_body]
pub struct ExThreadRng(rand::rngs::ThreadRng);

/// Relies on rand::thread_rng: a handle to the thread-local generator.
pub assume_specification[ rand::thread_rng ]() -> rand::rngs::ThreadRng
;

/// Relies on rand::Rng::gen_range: a number drawn from `lo..hi`, which for
/// a non-empty range always lies inside it.  Nothing further is assumed of
/// the draw.
#[verifier::external_body]
pub fn rng_range(rng: &mut rand::rngs::ThreadRng, lo: i64, hi: i64) -> (r: i64)
    requires
        lo < hi,
    ensures
        lo <= r < hi,
{
    rng.gen_range(lo..hi)
}

} // verus!
