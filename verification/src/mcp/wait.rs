//! Waiting for a run to settle, for a bounded time.
use vstd::prelude::*;

verus! {

/// The most seconds a caller may wait.
pub const MAX_WAIT_SECONDS: u64 = 300;

/// How long a wait may last: not at all if it was not asked for, and never longer than the
/// most that may be asked for.
pub open spec fn bounded_wait(wait_seconds: Option<u64>) -> u64 {
    match wait_seconds {
        None => 0,
        Some(seconds) => if seconds > MAX_WAIT_SECONDS {
            MAX_WAIT_SECONDS
        } else {
            seconds
        },
    }
}

/// Bounds the wait a caller asks for. One above the most is cut down to it, not refused: the
/// answer comes in the same shape either way.
pub fn clamp_wait_seconds(wait_seconds: Option<u64>) -> (seconds: u64)
    ensures
        seconds == bounded_wait(wait_seconds),
        seconds <= MAX_WAIT_SECONDS,
{
    match wait_seconds {
        None => 0,
        Some(seconds) => if seconds > MAX_WAIT_SECONDS {
            MAX_WAIT_SECONDS
        } else {
            seconds
        },
    }
}

/// How a run is read that may be waited for.
#[derive(Clone, Copy, Debug, PartialEq, Eq, Structural)]
pub enum WaitPlan {
    /// Once, as it stands.
    ReadOnce,
    /// Again and again until it settles, and once more, as it stands, if so many seconds go
    /// by first.
    PollFor(u64),
}

/// Plans how a run is read.
pub fn plan_wait(wait_seconds: u64) -> (plan: WaitPlan)
    ensures
        plan == (if wait_seconds == 0 {
            WaitPlan::ReadOnce
        } else {
            WaitPlan::PollFor(wait_seconds)
        }),
{
    if wait_seconds == 0 {
        WaitPlan::ReadOnce
    } else {
        WaitPlan::PollFor(wait_seconds)
    }
}

/// A wait lasts as long as was asked for, as far as that may be asked for: never longer than
/// either, equal to the lesser, and not at all where none was asked for.
pub proof fn a_wait_is_the_lesser_of_asked_and_allowed(asked: u64)
    ensures
        bounded_wait(None) == 0,
        bounded_wait(Some(asked)) <= asked,
        bounded_wait(Some(asked)) <= MAX_WAIT_SECONDS,
        bounded_wait(Some(asked)) == asked || bounded_wait(Some(asked)) == MAX_WAIT_SECONDS,
{
}

/// A run is read once exactly where no wait is left of what was asked for, and else polled
/// for as long as that.
pub proof fn a_wait_is_polled_out(asked: Option<u64>, seconds: u64, plan: WaitPlan)
    requires
        call_ensures(clamp_wait_seconds, (asked,), seconds),
        call_ensures(plan_wait, (seconds,), plan),
    ensures
        plan is ReadOnce <==> asked is None || asked->0 == 0,
        plan matches WaitPlan::PollFor(n) ==> n == (if asked->0 < MAX_WAIT_SECONDS {
            asked->0
        } else {
            MAX_WAIT_SECONDS
        }),
{
}

} // verus!
