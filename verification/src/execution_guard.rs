//! Execution-quality guard for individual swaps.
//!
//! The guard compares a route's effective rate at the real trade size with
//! its marginal rate at a tiny reference size. This module holds the integer
//! part: the size of that reference probe.
use vstd::prelude::*;

verus! {

/// Fraction of the full trade size used as the marginal-rate reference
/// (`1/1000` of the trade).
pub const REFERENCE_FRACTION: u128 = 1000;

/// Reference input size for the marginal-rate probe of `full_in`:
/// `max(1, full_in / REFERENCE_FRACTION)`, so the probe is never zero.
pub fn reference_input(full_in: u128) -> (r: u128)
    ensures
        r == if full_in / REFERENCE_FRACTION >= 1 {
            full_in / REFERENCE_FRACTION
        } else {
            1
        },
        r >= 1,
{
    let q = full_in / REFERENCE_FRACTION;
    if q >= 1 {
        q
    } else {
        1
    }
}

} // verus!
