//! Heartbeat: detects a target that is alive but stuck.
//!
//! The target touches a file now and then; the age of the heartbeat is the time since
//! the file was last modified. Both times are wall-clock times, so a clock that is set
//! forward can make a fresh heartbeat look stale for a moment. One that is set back
//! makes the file look modified in the future; that counts as an age of zero, the safe
//! direction.

use crate::time::{Duration, NANOS_PER_SEC};
use vstd::prelude::*;

verus! {

/// What became of looking at the heartbeat file.
#[derive(Clone, Copy, PartialEq, Eq, Debug, Structural)]
pub enum HeartbeatAge {
    /// There is no such file: the target has not started its heartbeat yet.
    Missing,
    /// It could not be looked at, so its age cannot be told.
    Unreadable,
    /// Time since the file was modified.
    Age(Duration),
}

/// A wall-clock time: seconds since 1970-01-01, negative before that, and nanoseconds
/// on top.
#[derive(Clone, Copy, PartialEq, Eq, Debug, Structural)]
pub struct WallTime {
    pub(crate) secs: i64,
    pub(crate) nanos: u32,
}

impl View for WallTime {
    type V = int;

    open(crate) spec fn view(&self) -> int {
        self.secs * NANOS_PER_SEC + self.nanos
    }
}

impl WallTime {
    /// The nanoseconds are less than a second.
    #[verifier::type_invariant]
    pub open(crate) spec fn normal(self) -> bool {
        self.nanos < 1_000_000_000
    }

    /// The time `secs` seconds and `nanos` nanoseconds after 1970-01-01, or `None` if the
    /// nanoseconds make a second.
    pub fn new(secs: i64, nanos: u32) -> (t: Option<WallTime>)
        ensures
            t is Some <==> nanos < 1_000_000_000,
            t matches Some(t) ==> t@ == secs * NANOS_PER_SEC + nanos,
    {
        if nanos < 1_000_000_000 {
            Some(WallTime { secs, nanos })
        } else {
            None
        }
    }

    /// The time `d` after 1970-01-01, or before it, or `None` if it cannot be counted.
    pub fn from_epoch(d: Duration, before: bool) -> (t: Option<WallTime>)
        ensures
            t is Some <==> (if before {
                d@ <= 0x8000_0000_0000_0000 * NANOS_PER_SEC
            } else {
                d@ < 0x8000_0000_0000_0000 * NANOS_PER_SEC
            }),
            t matches Some(t) ==> t@ == if before {
                -(d@ as int)
            } else {
                d@ as int
            },
    {
        let secs: u64 = d.as_secs();
        let nanos: u32 = d.subsec_nanos();
        if !before {
            if secs <= i64::MAX as u64 {
                Some(WallTime { secs: secs as i64, nanos })
            } else {
                None
            }
        } else if nanos == 0 {
            if secs < 0x8000_0000_0000_0000 {
                Some(WallTime { secs: -(secs as i64), nanos: 0 })
            } else if secs == 0x8000_0000_0000_0000 {
                Some(WallTime { secs: i64::MIN, nanos: 0 })
            } else {
                None
            }
        } else if secs < 0x8000_0000_0000_0000 {
            Some(WallTime { secs: -(secs as i64) - 1, nanos: 1_000_000_000 - nanos })
        } else {
            None
        }
    }

    /// Whole seconds since 1970-01-01. A clock that is set before that counts as 1970.
    pub fn unix_secs(self) -> (s: u64)
        ensures
            s == if self@ < 0 {
                0
            } else {
                self@ / (NANOS_PER_SEC as int)
            },
    {
        proof {
            use_type_invariant(&self);
        }
        if self.secs < 0 {
            0
        } else {
            self.secs as u64
        }
    }

    /// The time since `earlier`, or no time at all if that is later.
    pub fn since(self, earlier: WallTime) -> (d: Duration)
        ensures
            d@ == if self@ >= earlier@ {
                (self@ - earlier@) as nat
            } else {
                0
            },
    {
        proof {
            use_type_invariant(&self);
            use_type_invariant(&earlier);
        }
        let a: i128 = self.secs as i128 * 1_000_000_000 + self.nanos as i128;
        let b: i128 = earlier.secs as i128 * 1_000_000_000 + earlier.nanos as i128;
        if a >= b {
            Duration::from_nanos((a - b) as u128)
        } else {
            Duration::zero()
        }
    }
}

/// What asking for the time of a file's last modification came to.
#[derive(Clone, Copy, PartialEq, Eq, Debug, Structural)]
pub enum Modified {
    At(WallTime),
    /// There is no such file.
    NotFound,
    /// Anything else went wrong.
    Failed,
}

/// The age of a heartbeat, given when its file was modified.
pub open spec fn age_of(modified: Modified, now: WallTime) -> HeartbeatAge {
    match modified {
        Modified::At(mtime) => HeartbeatAge::Age(
            Duration::of_nanos(
                if now@ >= mtime@ {
                    (now@ - mtime@) as nat
                } else {
                    0
                },
            ),
        ),
        Modified::NotFound => HeartbeatAge::Missing,
        Modified::Failed => HeartbeatAge::Unreadable,
    }
}

/// The age of a heartbeat, given when its file was modified.
pub fn heartbeat_age(modified: Modified, now: WallTime) -> (r: HeartbeatAge)
    ensures
        r == age_of(modified, now),
{
    match modified {
        Modified::At(mtime) => HeartbeatAge::Age(now.since(mtime)),
        Modified::NotFound => HeartbeatAge::Missing,
        Modified::Failed => HeartbeatAge::Unreadable,
    }
}

/// A file modified in the future is a fresh heartbeat.
pub proof fn future_heartbeat_is_fresh(mtime: WallTime, now: WallTime)
    requires
        mtime@ >= now@,
    ensures
        age_of(Modified::At(mtime), now) matches HeartbeatAge::Age(d) && d@ == 0,
{
}

/// The age of a heartbeat is the time since its file was modified, to the nanosecond; a file
/// that is not there is missing, and one that cannot be looked at is unreadable.
pub proof fn age_is_the_time_since(mtime: WallTime, now: WallTime)
    ensures
        0 <= now@ - mtime@ <= 18_446_744_073_709_551_615_999_999_999 ==> (age_of(
            Modified::At(mtime),
            now,
        ) matches HeartbeatAge::Age(d) && d@ == now@ - mtime@),
        age_of(Modified::At(mtime), now) is Age,
        age_of(Modified::NotFound, now) == HeartbeatAge::Missing,
        age_of(Modified::Failed, now) == HeartbeatAge::Unreadable,
{
}

/// Time makes a heartbeat older by as much as passes.
pub proof fn heartbeats_grow_older(mtime: WallTime, now: WallTime, later: WallTime)
    requires
        mtime@ <= now@ <= later@,
        later@ - mtime@ <= 18_446_744_073_709_551_615_999_999_999,
    ensures
        age_of(Modified::At(mtime), now) matches HeartbeatAge::Age(a) && age_of(
            Modified::At(mtime),
            later,
        ) matches HeartbeatAge::Age(b) && b@ - a@ == later@ - now@,
{
}

} // verus!
