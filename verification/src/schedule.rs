//! When the next cycle runs.
//!
//! Cycles run on the five-minute marks of the clock, the one at midnight
//! among them. From a time of day the plan is to sleep until the first mark
//! that lies ahead, which is at most five minutes away.

use vstd::prelude::*;

verus! {

/// The seconds from one mark to the next.
pub const MARK_SECONDS: u32 = 300;

/// A time of day, to the second.
#[derive(Clone, Copy, Debug)]
pub struct TimeOfDay {
    hour: u32,
    minute: u32,
    second: u32,
}

/// The seconds from midnight to `hour:minute:second`.
pub open spec fn seconds_into_day(hour: int, minute: int, second: int) -> int {
    hour * 3600 + minute * 60 + second
}

/// Whether `hour:minute:second` is a time of day.
pub open spec fn is_time_of_day(hour: int, minute: int, second: int) -> bool {
    0 <= hour < 24 && 0 <= minute < 60 && 0 <= second < 60
}

impl View for TimeOfDay {
    type V = int;

    /// The seconds since midnight.
    closed spec fn view(&self) -> int {
        seconds_into_day(self.hour as int, self.minute as int, self.second as int)
    }
}

impl TimeOfDay {
    #[verifier::type_invariant]
    spec fn in_day(self) -> bool {
        is_time_of_day(self.hour as int, self.minute as int, self.second as int)
    }

    /// The time `hour:minute:second`, where that is a time of day.
    pub fn new(hour: u32, minute: u32, second: u32) -> (result: Option<TimeOfDay>)
        ensures
            match result {
                Some(time) => is_time_of_day(hour as int, minute as int, second as int) && time@
                    == seconds_into_day(hour as int, minute as int, second as int),
                None => !is_time_of_day(hour as int, minute as int, second as int),
            },
    {
        if hour < 24 && minute < 60 && second < 60 {
            Some(TimeOfDay { hour, minute, second })
        } else {
            None
        }
    }

    /// The seconds since midnight.
    pub fn seconds(&self) -> (result: u32)
        ensures
            result == self@,
            0 <= self@ < 86400,
    {
        proof {
            use_type_invariant(self);
        }
        self.hour * 3600 + self.minute * 60 + self.second
    }
}

/// Whether the second `at`, counted from a midnight, is a five-minute mark.
pub open spec fn is_mark(at: int) -> bool {
    at % (MARK_SECONDS as int) == 0
}

/// The seconds from `now` seconds into the day to the first five-minute
/// mark after it. A time on a mark is a whole interval away from the next.
pub open spec fn seconds_to_next_mark(now: int) -> int {
    MARK_SECONDS - now % (MARK_SECONDS as int)
}

/// Plans the wait until the next run: the seconds to sleep from `now` to the
/// first five-minute mark after it.
pub fn plan_wait(now: TimeOfDay) -> (seconds: u64)
    ensures
        seconds == seconds_to_next_mark(now@),
        1 <= seconds <= MARK_SECONDS,
        is_mark(now@ + seconds),
{
    let current = now.seconds();
    (MARK_SECONDS - current % MARK_SECONDS) as u64
}

/// A wait lasts from one second to five minutes and ends on the first
/// five-minute mark after its start, at every time of day.
pub proof fn wait_ends_on_the_next_mark(now: int)
    requires
        0 <= now < 86400,
    ensures
        1 <= seconds_to_next_mark(now) <= 300,
        is_mark(now + seconds_to_next_mark(now)),
        forall|between: int|
            now < between < now + seconds_to_next_mark(now) ==> !#[trigger] is_mark(between),
{
}

} // verus!
