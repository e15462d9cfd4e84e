//! Random draws, taken from the process-wide generator of `quad_rand`.

use vstd::prelude::*;

verus! {

/// The largest bound for which a draw is known to stay below it.
pub const ROLL_LIMIT: u32 = 0x10000;

/// `quad_rand::gen_range(0, high)`: a draw from the global generator, scaled into `0 .. high`.
/// The generator's state decides the value; the contract says only that it lies below `high`.
/// The bound is kept small enough that the scaling, which the generator does in
/// floating point, is exact.
#[verifier::external_body]
pub(crate) fn roll(high: u32) -> (r: u32)
    requires
        0 < high <= ROLL_LIMIT,
    ensures
        r < high,
{
    quad_rand::gen_range(0u32, high)
}

} // verus!
