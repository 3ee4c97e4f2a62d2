//! Instants and timeouts, counted in nanoseconds.
use vstd::prelude::*;

verus! {

/// The largest span that `std::time::Duration` can hold, in nanoseconds.
pub const MAX_NANOS: u128 = 18_446_744_073_709_551_615_999_999_999;

/// One millisecond, in nanoseconds.
pub const MILLISECOND: u128 = 1_000_000;

/// `std::time::Instant`, a reading of the monotonic clock. It is only carried from one of the
/// calls below to another.
#[verifier::external_type_specification]
#[verifier::external_body]
pub struct ExInstant(std::time::Instant);

/// `std::time::Instant::now` reads the monotonic clock. Nothing is claimed of the reading.
pub assume_specification[ std::time::Instant::now ]() -> std::time::Instant;

/// `std::time::Instant::elapsed` measures the time since an instant. Nothing is claimed of the
/// measurement.
pub assume_specification[ std::time::Instant::elapsed ](
    instant: &std::time::Instant,
) -> std::time::Duration;

/// `std::time::Duration::as_nanos` gives the length of a span in nanoseconds. A span is a count
/// of whole seconds in 64 bits and less than one further second, which bounds the result.
pub assume_specification[ std::time::Duration::as_nanos ](
    duration: &std::time::Duration,
) -> (nanos: u128)
    ensures
        nanos <= MAX_NANOS,
;

/// A monotonic clock that counts from the moment it was made. It keeps the latest moment it has
/// seen, so that its readings never run back.
#[derive(Debug, Clone, Copy)]
pub struct Clock {
    /// When the clock was made.
    pub origin: std::time::Instant,
    /// The latest moment that the clock has seen.
    pub latest: u128,
}

impl Clock {
    /// What holds between calls.
    pub open spec fn wf(self) -> bool {
        self.latest <= MAX_NANOS
    }

    /// The clock once it has seen a moment.
    pub open spec fn seen(self, now: u128) -> Clock {
        Clock {
            latest: if now <= self.latest {
                self.latest
            } else {
                now
            },
            ..self
        }
    }

    /// A clock that has seen no moment but its first.
    pub fn new() -> (r: Clock)
        ensures
            r.wf(),
            r.latest == 0,
    {
        Clock { origin: std::time::Instant::now(), latest: 0 }
    }

    /// The nanoseconds since the clock was made, and no fewer than it has seen before.
    pub fn now(&mut self) -> (r: u128)
        requires
            old(self).wf(),
        ensures
            old(self).latest <= r <= MAX_NANOS,
            *final(self) == old(self).seen(r),
    {
        let reading: u128 = self.origin.elapsed().as_nanos();
        self.see(reading);
        self.latest
    }

    /// Takes note of a moment.
    pub fn see(&mut self, now: u128)
        requires
            old(self).wf(),
            now <= MAX_NANOS,
        ensures
            *final(self) == old(self).seen(now),
            final(self).wf(),
    {
        if self.latest < now {
            self.latest = now;
        }
    }
}

/// Whether a deadline is no further away than a timeout from a moment.
pub open spec fn within(deadline: Option<u128>, latest: u128, timeout: u128) -> bool {
    deadline matches Some(at) ==> at <= latest + timeout
}

/// Whether a deadline has been reached.
pub open spec fn reached(deadline: Option<u128>, now: u128) -> bool {
    deadline matches Some(at) && at <= now
}

/// Whether a deadline has been reached; without a deadline it never is.
pub fn deadline_reached(deadline: Option<u128>, now: u128) -> (r: bool)
    ensures
        r == reached(deadline, now),
{
    match deadline {
        Some(at) => at <= now,
        None => false,
    }
}

/// The time left until a deadline: nothing once it is reached, no limit without one.
pub open spec fn remaining(deadline: Option<u128>, now: u128) -> Option<u128> {
    match deadline {
        Some(at) => Some(if at <= now { 0u128 } else { (at - now) as u128 }),
        None => None,
    }
}

/// The shorter of two limits, where `None` is no limit.
pub open spec fn shorter(a: Option<u128>, b: Option<u128>) -> Option<u128> {
    match (a, b) {
        (Some(x), Some(y)) => Some(if x <= y { x } else { y }),
        (Some(x), None) => Some(x),
        (None, other) => other,
    }
}

/// Whether a limit is no longer than another, where `None` is no limit.
pub open spec fn no_longer(a: Option<u128>, b: Option<u128>) -> bool {
    b matches Some(limit) ==> a is Some && a->0 <= limit
}

/// The time left until a deadline.
pub fn time_remaining(deadline: Option<u128>, now: u128) -> (r: Option<u128>)
    ensures
        r == remaining(deadline, now),
{
    match deadline {
        Some(at) => Some(if at <= now { 0 } else { at - now }),
        None => None,
    }
}

/// The shorter of two limits.
pub fn shorter_limit(a: Option<u128>, b: Option<u128>) -> (r: Option<u128>)
    ensures
        r == shorter(a, b),
{
    match (a, b) {
        (Some(x), Some(y)) => Some(if x <= y { x } else { y }),
        (Some(x), None) => Some(x),
        (None, other) => other,
    }
}

/// Keeps track of the time a call may take.
#[derive(Debug, Clone, Copy)]
pub struct PollTimeout {
    /// `None` waits for as long as it takes.
    pub timeout: Option<u128>,
    /// When the call began.
    pub start: u128,
}

impl PollTimeout {
    /// The time since the call began.
    pub open spec fn spent(self, now: u128) -> u128 {
        if self.start <= now {
            (now - self.start) as u128
        } else {
            0
        }
    }

    /// Whether the call has used up its time.
    pub open spec fn is_elapsed(self, now: u128) -> bool {
        self.timeout matches Some(limit) && limit <= self.spent(now)
    }

    /// The time the call has left.
    pub open spec fn left(self, now: u128) -> Option<u128> {
        match self.timeout {
            Some(limit) => Some(
                if limit <= self.spent(now) {
                    0u128
                } else {
                    (limit - self.spent(now)) as u128
                },
            ),
            None => None,
        }
    }

    pub fn new(timeout: Option<u128>, now: u128) -> (r: PollTimeout)
        ensures
            r == (PollTimeout { timeout, start: now }),
    {
        PollTimeout { timeout, start: now }
    }

    fn spent_by(&self, now: u128) -> (r: u128)
        ensures
            r == self.spent(now),
    {
        if self.start <= now {
            now - self.start
        } else {
            0
        }
    }

    /// Returns whether the timeout has elapsed.
    pub fn elapsed(&self, now: u128) -> (r: bool)
        ensures
            r == self.is_elapsed(now),
    {
        match self.timeout {
            Some(limit) => limit <= self.spent_by(now),
            None => false,
        }
    }

    /// Returns the time that is left.
    pub fn leftover(&self, now: u128) -> (r: Option<u128>)
        ensures
            r == self.left(now),
    {
        match self.timeout {
            Some(limit) => {
                let spent: u128 = self.spent_by(now);
                Some(if limit <= spent { 0 } else { limit - spent })
            },
            None => None,
        }
    }
}

/// A timeout counts down from when the call began: what is spent and what is left are together the
/// limit, and the time is over exactly when nothing is left. Without a limit it never is.
pub proof fn law_timeout_counts_down(limit: u128, start: u128, now: u128)
    requires
        start <= now,
    ensures
        ({
            let timeout = PollTimeout { timeout: Some(limit), start };
            let left = timeout.left(now);
            &&& left is Some
            &&& timeout.is_elapsed(now) <==> now - start >= limit
            &&& timeout.is_elapsed(now) ==> left == Some(0u128)
            &&& !timeout.is_elapsed(now) ==> left->0 > 0 && (now - start) + left->0 == limit
        }),
        ({
            let forever = PollTimeout { timeout: None, start };
            &&& !forever.is_elapsed(now)
            &&& forever.left(now) is None
        }),
{
}

/// A deadline is reached from its moment on, and until then the time that remains ends at it.
pub proof fn law_deadline_is_a_moment(at: u128, now: u128)
    ensures
        reached(Some(at), now) <==> now >= at,
        now < at ==> remaining(Some(at), now) is Some && now + remaining(Some(at), now)->0 == at,
        now >= at ==> remaining(Some(at), now) == Some(0u128),
        !reached(None, now),
        remaining(None, now) is None,
{
}

/// The shorter of two limits is one of them and no longer than either.
pub proof fn law_shorter_limit_is_the_shorter(a: Option<u128>, b: Option<u128>)
    ensures
        shorter(a, b) == a || shorter(a, b) == b,
        no_longer(shorter(a, b), a),
        no_longer(shorter(a, b), b),
{
}

} // verus!
