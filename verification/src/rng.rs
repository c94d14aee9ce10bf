//! Random piece selection, through the rand crate.

use vstd::prelude::*;
use rand::Rng;

verus! {

/// Draws the index of the next piece kind, uniformly over the seven kinds.
///
/// Relies on rand::Rng::gen_range called on rand::thread_rng() with the
/// range 0..7: the sampled value lies in that non-empty range.
#[verifier::external_body]
pub(crate) fn random_piece_index() -> (r: u32)
    ensures
        r < 7,
{
    let mut rng = rand::thread_rng();
    rng.gen_range(0..7u32)
}

} // verus!
