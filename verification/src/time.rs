//! Points in time, and how long a listing of the agent's keys stays fresh.

use vstd::prelude::*;

verus! {

/// A point in time, as seconds and nanoseconds after the Unix epoch. Before the
/// epoch the seconds are negative; the nanoseconds always count forward.
#[derive(Clone, Copy, Debug, PartialEq, Eq, Structural)]
pub struct Timestamp {
    pub secs: i64,
    pub nanos: u32,
}

/// How many nanoseconds a listing stays fresh.
pub const REFRESH_INTERVAL_NANOS: i128 = 1_000_000_000;

/// For how many seconds the kernel may keep an answer.
pub const TTL_SECS: u64 = 1;

impl Timestamp {
    /// The Unix epoch.
    pub fn epoch() -> (t: Timestamp)
        ensures
            t.secs == 0,
            t.nanos == 0,
    {
        Timestamp { secs: 0, nanos: 0 }
    }

    /// The nanoseconds from the epoch to this point in time.
    pub open spec fn since_epoch(self) -> int {
        self.secs * 1_000_000_000 + self.nanos
    }

    fn nanos_since_epoch(self) -> (n: i128)
        ensures
            n == self.since_epoch(),
            -0x1_0000_0000_0000_0000_0000_0000 <= n <= 0x1_0000_0000_0000_0000_0000_0000,
    {
        (self.secs as i128) * 1_000_000_000 + (self.nanos as i128)
    }
}

/// Whether a listing taken at `last` is out of date at `now`: more than the
/// refresh interval has passed, or the clock has been set back.
pub open spec fn is_stale(last: Timestamp, now: Timestamp) -> bool {
    let age = now.since_epoch() - last.since_epoch();
    age < 0 || age > REFRESH_INTERVAL_NANOS
}

/// Whether a listing taken at `last` is out of date at `now`.
pub fn stale(last: Timestamp, now: Timestamp) -> (b: bool)
    ensures
        b == is_stale(last, now),
{
    let age: i128 = now.nanos_since_epoch() - last.nanos_since_epoch();
    age < 0 || age > REFRESH_INTERVAL_NANOS
}

/// At whatever time, a listing is out of date once more than one second has
/// passed since it was taken, or if it was taken in the future, and not before.
pub proof fn law_listing_is_fresh_for_a_second(last: Timestamp, now: Timestamp)
    ensures
        is_stale(last, now) <==> {
            let taken = last.secs * 1_000_000_000 + last.nanos;
            let asked = now.secs * 1_000_000_000 + now.nanos;
            asked < taken || asked > taken + 1_000_000_000
        },
{
}

/// Whether a listing is out of date depends on its age alone: two listings of
/// the same age are both out of date or both fresh, at whatever times.
pub proof fn law_only_age_matters(
    last1: Timestamp,
    now1: Timestamp,
    last2: Timestamp,
    now2: Timestamp,
)
    requires
        (now1.secs - last1.secs) * 1_000_000_000 + now1.nanos - last1.nanos == (now2.secs
            - last2.secs) * 1_000_000_000 + now2.nanos - last2.nanos,
    ensures
        is_stale(last1, now1) == is_stale(last2, now2),
{
}

/// A listing that is out of date stays so as time goes on, and a fresh one was
/// fresh ever since it was taken.
pub proof fn law_staleness_lasts(last: Timestamp, early: Timestamp, late: Timestamp)
    requires
        last.secs * 1_000_000_000 + last.nanos <= early.secs * 1_000_000_000 + early.nanos,
        early.secs * 1_000_000_000 + early.nanos <= late.secs * 1_000_000_000 + late.nanos,
    ensures
        is_stale(last, early) ==> is_stale(last, late),
{
}

} // verus!
