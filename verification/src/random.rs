//! The one source of chance: the thread-local random number generator.

use vstd::prelude::*;
use rand::Rng;

verus! {

/// Draws an integer from `low .. high`.
///
/// Trusted: the body calls `rand::Rng::gen_range` on `rand::thread_rng()`
/// with an exclusive range. Nothing is claimed of the draw but that it lies
/// in the range; two draws need not agree. `gen_range` panics on an empty
/// range, which the precondition rules out.
#[verifier::external_body]
pub(crate) fn draw(low: i32, high: i32) -> (value: i32)
    requires
        low < high,
    ensures
        low <= value < high,
{
    rand::thread_rng().gen_range(low..high)
}

} // verus!
