//! The process-wide source of randomness, behind a single trusted wrapper.

use vstd::prelude::*;
use rand::Rng;

verus! {

/// Relies on rand's `Rng::gen_range` over the inclusive integer range
/// `0..=max`: for a non-empty range it samples a single value between the
/// two bounds, both included. Nothing more is assumed of the draw.
#[verifier::external_body]
pub(crate) fn random_upto(max: i64) -> (r: i64)
    requires
        0 <= max,
    ensures
        0 <= r <= max,
{
    rand::thread_rng().gen_range(0..=max)
}

} // verus!
