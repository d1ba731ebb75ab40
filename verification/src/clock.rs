//! The time of day.
use vstd::prelude::*;

verus! {

/// A point in time: seconds since 1970-01-01T00:00:00Z, and nanoseconds within the second.
#[derive(Clone, Copy, Debug, PartialEq, Eq, Structural)]
pub struct Timespec {
    pub sec: i64,
    pub nsec: i32,
}

impl Timespec {
    /// The nanoseconds do not reach a second.
    pub open spec fn wf(self) -> bool {
        0 <= self.nsec < 1_000_000_000
    }
}

impl Timespec {
    /// The current time, from which a tunnel counts its peer as alive.
    pub fn now() -> (now: Timespec)
        ensures
            now.wf(),
    {
        get_time()
    }
}

/// The current time, by `time::get_time`. Whatever the clock shows, the nanoseconds stay within
/// the second; nothing is claimed of the seconds.
#[verifier::external_body]
pub(crate) fn get_time() -> (now: Timespec)
    ensures
        now.wf(),
{
    let now = time::get_time();
    Timespec { sec: now.sec, nsec: now.nsec }
}

} // verus!
