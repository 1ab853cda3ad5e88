//! Spans of time, in seconds and nanoseconds, and the check that the local clock agrees
//! with the tangle time of a node.

use vstd::prelude::*;

verus! {

/// A span of time: whole seconds and the nanoseconds beyond them.
#[derive(Clone, Copy, Debug, PartialEq, Eq, Structural)]
pub struct TimeSpan {
    /// Whole seconds.
    pub secs: u64,
    /// Nanoseconds beyond the whole seconds, below one second.
    pub nanos: u32,
}

impl TimeSpan {
    /// Whether the nanoseconds stay below one second.
    pub open spec fn wf(self) -> bool {
        self.nanos < 1_000_000_000
    }

    /// A span of whole seconds.
    pub fn from_secs(secs: u64) -> (t: TimeSpan)
        ensures
            t.secs == secs,
            t.nanos == 0,
            t.wf(),
    {
        TimeSpan { secs, nanos: 0 }
    }
}

/// How far the local clock may be from the tangle time, in nanoseconds: five minutes.
pub const FIVE_MINUTES_IN_NANOSECONDS: u64 = 300_000_000_000;

/// The local time is more than five minutes from the tangle time of the node.
#[derive(Clone, Copy, Debug, PartialEq, Eq, Structural)]
pub struct TimeNotSynced {
    /// The local time, in nanoseconds.
    pub current_time: u64,
    /// The tangle time, in nanoseconds.
    pub tangle_time: u64,
}

/// Whether the local time lies within five minutes of the tangle time: from five minutes
/// before it, included, to five minutes after it, excluded.
pub open spec fn time_synced(current_time: u64, tangle_time: u64) -> bool {
    tangle_time - FIVE_MINUTES_IN_NANOSECONDS <= current_time && current_time < tangle_time
        + FIVE_MINUTES_IN_NANOSECONDS
}

/// Checks the local time against the tangle time of the node, where the node reports one,
/// so that no funds are locked by accident through a wrong clock.
pub fn check_time_synced(current_time: u64, tangle_time: Option<u64>) -> (r: Result<(), TimeNotSynced>)
    requires
        tangle_time matches Some(t) ==> FIVE_MINUTES_IN_NANOSECONDS <= t && t + FIVE_MINUTES_IN_NANOSECONDS
            <= u64::MAX,
    ensures
        match tangle_time {
            None => r is Ok,
            Some(t) => if time_synced(current_time, t) {
                r is Ok
            } else {
                r == Err::<(), TimeNotSynced>(TimeNotSynced { current_time, tangle_time: t })
            },
        },
{
    match tangle_time {
        None => Ok(()),
        Some(t) => {
            if t - FIVE_MINUTES_IN_NANOSECONDS <= current_time && current_time < t + FIVE_MINUTES_IN_NANOSECONDS {
                Ok(())
            } else {
                Err(TimeNotSynced { current_time, tangle_time: t })
            }
        },
    }
}

} // verus!
