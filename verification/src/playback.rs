//! Cadence of a sequence of frames: how long to wait after a frame was
//! shown, so that frames follow one another at a fixed period.

use vstd::prelude::*;

verus! {

/// Time left of a period after `elapsed` of it was spent: nothing where more
/// than the period was spent.
pub open spec fn wait_of(period: int, elapsed: int) -> int {
    if elapsed >= period {
        0
    } else {
        period - elapsed
    }
}

/// How many milliseconds to wait before the next frame, where frames are due
/// every `period_ms` and showing the last one took `elapsed_ms`.
pub fn playback_wait(period_ms: u64, elapsed_ms: u128) -> (wait_ms: u64)
    ensures
        wait_ms == wait_of(period_ms as int, elapsed_ms as int),
        wait_ms <= period_ms,
{
    if elapsed_ms >= period_ms as u128 {
        0
    } else {
        period_ms - (elapsed_ms as u64)
    }
}

/// The wait and the time spent make up the period, unless the period was
/// overrun, and the wait is never negative.
pub proof fn lemma_wait_fills_period(period: int, elapsed: int)
    requires
        period >= 0,
        elapsed >= 0,
    ensures
        wait_of(period, elapsed) >= 0,
        elapsed <= period ==> elapsed + wait_of(period, elapsed) == period,
        elapsed > period ==> wait_of(period, elapsed) == 0,
{
}

} // verus!
