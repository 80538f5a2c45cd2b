use crate::utilities::clock::{duration_as_nanos, elapsed_since, instant_now};
use std::time::Duration;
use std::time::Instant;
use vstd::prelude::*;

verus! {

/// What one call does to a limiter that has let `count` calls through in the current
/// window: the new count, and whether the caller has to wait. A call after the window has
/// run out opens a new window, in which no call has gone through yet; a call goes through
/// while fewer than `rate_limit` calls went through in its window.
pub open spec fn call_outcome(count: int, rate_limit: int, window_elapsed: bool) -> (int, bool) {
    let counted = if window_elapsed {
        0
    } else {
        count
    };
    if counted < rate_limit {
        (counted + 1, false)
    } else {
        (counted, true)
    }
}

/// What a call made `elapsed_nanos` nanoseconds after the current window opened does, for a
/// window of `window_nanos` nanoseconds: the window has run out once its length has passed.
pub open spec fn outcome_after(count: int, rate_limit: int, window_nanos: int, elapsed_nanos: int) -> (int, bool) {
    call_outcome(count, rate_limit, elapsed_nanos >= window_nanos)
}

/// A call made before the window has run out waits once the window's count has reached the
/// limit, and changes nothing; a call made once the window has run out opens a new window and
/// goes through as its first call, unless no call at all is allowed.
pub proof fn lemma_window_decides_the_outcome(count: int, rate_limit: int, window_nanos: int, elapsed_nanos: int)
    requires
        0 <= count,
    ensures
        elapsed_nanos < window_nanos && count >= rate_limit ==> outcome_after(
            count,
            rate_limit,
            window_nanos,
            elapsed_nanos,
        ) == (count, true),
        elapsed_nanos < window_nanos && count < rate_limit ==> outcome_after(
            count,
            rate_limit,
            window_nanos,
            elapsed_nanos,
        ) == (count + 1, false),
        elapsed_nanos >= window_nanos && rate_limit > 0 ==> outcome_after(
            count,
            rate_limit,
            window_nanos,
            elapsed_nanos,
        ) == (1int, false),
        elapsed_nanos >= window_nanos && rate_limit <= 0 ==> outcome_after(
            count,
            rate_limit,
            window_nanos,
            elapsed_nanos,
        ) == (0int, true),
{
}

/// How many of `calls` consecutive calls inside one window go through, starting from a
/// count of `count`.
pub open spec fn permits_in_window(count: int, rate_limit: int, calls: nat) -> int
    decreases calls,
{
    if calls == 0 {
        0
    } else {
        let (next, wait) = call_outcome(count, rate_limit, false);
        (if wait {
            0int
        } else {
            1int
        }) + permits_in_window(next, rate_limit, (calls - 1) as nat)
    }
}

/// Inside one window, calls go through until `rate_limit` of them have: of `calls`
/// consecutive calls that start from a count of `count`, exactly
/// `min(calls, rate_limit - count)` go through (none once the count is at the limit).
pub proof fn lemma_permits_in_window(count: int, rate_limit: int, calls: nat)
    requires
        0 <= count,
    ensures
        permits_in_window(count, rate_limit, calls) == if rate_limit - count <= 0 {
            0
        } else if calls <= rate_limit - count {
            calls as int
        } else {
            rate_limit - count
        },
    decreases calls,
{
    if calls > 0 {
        let (next, wait) = call_outcome(count, rate_limit, false);
        lemma_permits_in_window(next, rate_limit, (calls - 1) as nat);
    }
}

/// A window never lets more than `rate_limit` calls through. A window starts with a count of
/// zero, whether the limiter is new or a call found the previous window run out: such a call
/// fares as the first call of a fresh window does. Of any number of calls inside one
/// window, counted from its start, at most `rate_limit` go through.
pub proof fn lemma_window_never_exceeds_limit(count: int, rate_limit: nat, calls: nat)
    ensures
        call_outcome(count, rate_limit as int, true) == call_outcome(0, rate_limit as int, false),
        permits_in_window(0, rate_limit as int, calls) <= rate_limit,
{
    lemma_permits_in_window(0, rate_limit as int, calls);
}

/// `start` is a moment that the clock gave when read (by `Instant::now`).
pub closed spec fn opened_now(start: Instant) -> bool {
    call_ensures(instant_now, (), start)
}

/// `elapsed_nanos` is the number of nanoseconds that the clock measured, when read, as
/// having passed since `start` (by `Instant::elapsed` and `Duration::as_nanos`).
pub closed spec fn measured_since(start: Instant, elapsed_nanos: u128) -> bool {
    exists|since: Duration|
        call_ensures(elapsed_since, (&start,), since) && call_ensures(
            duration_as_nanos,
            (&since,),
            elapsed_nanos,
        )
}

/// A rate limiter: it lets at most `rate_limit` calls through per window of time.
pub struct RateLimiter {
    last_call: Instant,
    count: usize,
    rate_limit: usize,
    window_nanos: u128,
}

impl RateLimiter {
    /// The number of calls let through in the current window.
    pub closed spec fn count(&self) -> nat {
        self.count as nat
    }

    /// The number of calls let through per window.
    pub closed spec fn rate_limit(&self) -> nat {
        self.rate_limit as nat
    }

    /// The length of a window, in nanoseconds.
    pub closed spec fn window_nanos(&self) -> nat {
        self.window_nanos as nat
    }

    /// The moment the current window opened.
    pub closed spec fn window_start(&self) -> Instant {
        self.last_call
    }

    /// Creates a limiter whose window, of `window_nanos` nanoseconds, starts now and has let
    /// no call through.
    pub fn new(rate_limit: usize, window_nanos: u128) -> (limiter: Self)
        ensures
            limiter.count() == 0,
            limiter.rate_limit() == rate_limit,
            limiter.window_nanos() == window_nanos,
            opened_now(limiter.window_start()),
    {
        let now = instant_now;
        RateLimiter { last_call: now(), count: 0, rate_limit, window_nanos }
    }

    /// Records one call made `elapsed_nanos` nanoseconds after the current window opened;
    /// returns whether the caller has to wait. The window has run out once at least its
    /// length has passed; such a call opens a new window, starting now.
    pub fn record_call_after(&mut self, elapsed_nanos: u128) -> (wait: bool)
        ensures
            (final(self).count() as int, wait) == outcome_after(
                old(self).count() as int,
                old(self).rate_limit() as int,
                old(self).window_nanos() as int,
                elapsed_nanos as int,
            ),
            final(self).rate_limit() == old(self).rate_limit(),
            final(self).window_nanos() == old(self).window_nanos(),
            elapsed_nanos >= old(self).window_nanos() ==> opened_now(final(self).window_start()),
            elapsed_nanos < old(self).window_nanos() ==> final(self).window_start() == old(
                self,
            ).window_start(),
    {
        if elapsed_nanos >= self.window_nanos {
            let now = instant_now;
            self.last_call = now();
            self.count = 0;
        }
        if self.count < self.rate_limit {
            self.count = self.count + 1;
            false
        } else {
            true
        }
    }

    /// Whether a call has to wait: the time since the window opened is read from the clock
    /// and the call is recorded as `record_call_after` says, for exactly the number of
    /// nanoseconds the clock measured (`measured_since`). What the clock reads is not known
    /// here, but the outcome is `outcome_after` of that reading.
    pub fn should_wait(&mut self) -> (wait: bool)
        ensures
            exists|elapsed_nanos: u128|
                (final(self).count() as int, wait) == #[trigger] outcome_after(
                    old(self).count() as int,
                    old(self).rate_limit() as int,
                    old(self).window_nanos() as int,
                    elapsed_nanos as int,
                ),
            final(self).rate_limit() == old(self).rate_limit(),
            final(self).window_nanos() == old(self).window_nanos(),
            exists|elapsed_nanos: u128|
                #[trigger] measured_since(old(self).window_start(), elapsed_nanos) && (
                final(self).count() as int,
                wait,
            ) == outcome_after(
                    old(self).count() as int,
                    old(self).rate_limit() as int,
                    old(self).window_nanos() as int,
                    elapsed_nanos as int,
                ),
    {
        let read_elapsed = elapsed_since;
        let to_nanos = duration_as_nanos;
        let since = read_elapsed(&self.last_call);
        let elapsed = to_nanos(&since);
        proof {
            assert(measured_since(self.last_call, elapsed));
        }
        let wait = self.record_call_after(elapsed);
        proof {
            assert(measured_since(old(self).window_start(), elapsed));
        }
        wait
    }
}

/// Something that tells callers whether they have to wait before going on.
pub trait RateLimiting {
    /// Whether the caller has to wait; records the call when it may go on.
    fn should_wait(&mut self) -> bool;
}

impl RateLimiting for RateLimiter {
    fn should_wait(&mut self) -> (wait: bool)
        ensures
            exists|elapsed_nanos: u128|
                (final(self).count() as int, wait) == #[trigger] outcome_after(
                    old(self).count() as int,
                    old(self).rate_limit() as int,
                    old(self).window_nanos() as int,
                    elapsed_nanos as int,
                ),
            final(self).rate_limit() == old(self).rate_limit(),
            final(self).window_nanos() == old(self).window_nanos(),
            exists|elapsed_nanos: u128|
                #[trigger] measured_since(old(self).window_start(), elapsed_nanos) && (
                final(self).count() as int,
                wait,
            ) == outcome_after(
                    old(self).count() as int,
                    old(self).rate_limit() as int,
                    old(self).window_nanos() as int,
                    elapsed_nanos as int,
                ),
    {
        RateLimiter::should_wait(self)
    }
}

/// A limiter that never makes a caller wait.
#[derive(Default)]
pub struct MockRateLimiting {}

impl RateLimiting for MockRateLimiting {
    fn should_wait(&mut self) -> (wait: bool)
        ensures
            !wait,
    {
        false
    }
}

} // verus!
