//! Random draws for sampling, obtained from the `rand` crate through one
//! trusted wrapper; everything built on top of it is verified.

use vstd::prelude::*;

verus! {

use crate::fixed::FP_ONE;

/// Relies on rand::random_range over `lo..hi`: the thread-local generator
/// returns a value of the half-open range.  Nothing more is assumed — in
/// particular no independence and no distribution.
#[verifier::external_body]
pub(crate) fn rand_range_i64(lo: i64, hi: i64) -> (r: i64)
    requires
        lo < hi,
    ensures
        lo <= r < hi,
{
    rand::random_range(lo..hi)
}

/// A random scalar in `[0, 1)`.
pub fn random_double() -> (r: i64)
    ensures
        0 <= r < FP_ONE,
{
    rand_range_i64(0, FP_ONE)
}

/// A random scalar in `[min, max)`.
pub fn random_double_range(min: i64, max: i64) -> (r: i64)
    requires
        min < max,
    ensures
        min <= r < max,
{
    rand_range_i64(min, max)
}

/// A random coordinate axis: 0, 1 or 2.
pub fn random_axis() -> (r: usize)
    ensures
        r < 3,
{
    let v: i64 = rand_range_i64(0, 3);
    v as usize
}

} // verus!
