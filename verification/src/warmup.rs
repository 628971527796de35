//! Warmup-phase policy: a kernel is warmed until an iteration cap or a
//! wall-clock cap is reached, whichever comes first. The caps are constants
//! of the harness, not tunable per descriptor.

use vstd::prelude::*;

verus! {

/// Iteration cap of the warmup phase.
pub const WARMUP_ITERS: u32 = 100;

/// Wall-clock cap of the warmup phase, in seconds from the first warmup call.
pub const WARMUP_TIME_SECS: u64 = 30;

/// Whether another warmup iteration is due: both the iteration cap and the
/// wall-clock cap must still be open.
pub fn warmup_should_continue(iters: u32, elapsed_secs: u64) -> (r: bool)
    ensures
        r == (iters < WARMUP_ITERS && elapsed_secs < WARMUP_TIME_SECS),
{
    iters < WARMUP_ITERS && elapsed_secs < WARMUP_TIME_SECS
}

} // verus!
