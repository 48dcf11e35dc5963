//! Monotonic deadlines.
//!
//! Time is measured in nanoseconds on a monotonic clock whose readings are
//! handed in by the caller, so that every decision here is a function of the
//! reading it was given.
use vstd::prelude::*;

verus! {

/// When a deadline becomes ready.
#[derive(Clone, Copy, Debug, PartialEq, Eq, Structural)]
pub enum DeadlineState {
    /// Ready immediately.
    Ready,
    /// Ready once the clock reaches the given reading.
    At(u128),
    /// Never ready.
    Never,
}

/// A monotonic deadline that is ready now, at a finite instant, or never.
#[derive(Clone, Copy, Debug, PartialEq, Eq, Structural)]
pub struct Deadline(pub DeadlineState);

/// The latest clock reading a deadline can name, in nanoseconds: as many
/// seconds as a signed 64-bit count holds.
pub const MAX_DEADLINE_NANOS: u128 = 9_223_372_036_854_775_807_999_999_999;

/// The requested duration does not fit the monotonic clock's range.
#[derive(Clone, Copy, Debug, PartialEq, Eq, Structural)]
pub struct DeadlineOverflow;

impl DeadlineOverflow {
    /// The error message.
    pub fn message(&self) -> (s: &'static str)
        ensures
            s@ == "sleep duration exceeds the monotonic clock range"@,
    {
        "sleep duration exceeds the monotonic clock range"
    }
}

/// Whether a deadline in the given state is ready at clock reading `now`.
pub open spec fn deadline_ready_at(state: DeadlineState, now: u64) -> bool {
    match state {
        DeadlineState::Ready => true,
        DeadlineState::At(t) => now >= t,
        DeadlineState::Never => false,
    }
}

impl Default for Deadline {
    fn default() -> (d: Self)
        ensures
            d.0 == DeadlineState::Ready,
    {
        Deadline(DeadlineState::Ready)
    }
}

impl Deadline {
    /// A deadline that is ready immediately.
    pub fn ready() -> (d: Self)
        ensures
            d.0 == DeadlineState::Ready,
    {
        Deadline(DeadlineState::Ready)
    }

    /// A deadline that never becomes ready.
    pub fn never() -> (d: Self)
        ensures
            d.0 == DeadlineState::Never,
    {
        Deadline(DeadlineState::Never)
    }

    /// A deadline `duration_nanos` after the clock reading `now`.
    ///
    /// Fails with [`DeadlineOverflow`] when the sum leaves the clock's range.
    pub fn after(now: u64, duration_nanos: u128) -> (r: Result<Self, DeadlineOverflow>)
        ensures
            now + duration_nanos <= MAX_DEADLINE_NANOS <==> r.is_ok(),
            r matches Ok(d) ==> d.0 == DeadlineState::At((now + duration_nanos) as u128),
    {
        if duration_nanos > MAX_DEADLINE_NANOS - now as u128 {
            Err(DeadlineOverflow)
        } else {
            Ok(Deadline(DeadlineState::At(now as u128 + duration_nanos)))
        }
    }

    /// Whether the deadline has passed at clock reading `now`.
    pub fn is_ready(self, now: u64) -> (b: bool)
        ensures
            b == deadline_ready_at(self.0, now),
    {
        self.is_ready_at(now)
    }

    /// Whether the deadline has passed at clock reading `now`.
    pub fn is_ready_at(self, now: u64) -> (b: bool)
        ensures
            b == deadline_ready_at(self.0, now),
    {
        match self.0 {
            DeadlineState::Ready => true,
            DeadlineState::At(ready_at) => now as u128 >= ready_at,
            DeadlineState::Never => false,
        }
    }

    /// The finite reading at which the deadline becomes ready, if any.
    pub fn ready_at(self) -> (r: Option<u128>)
        ensures
            r == (match self.0 {
                DeadlineState::At(t) => Some(t),
                _ => None,
            }),
    {
        match self.0 {
            DeadlineState::At(ready_at) => Some(ready_at),
            _ => None,
        }
    }

    /// Whether the deadline never becomes ready.
    pub fn is_never(self) -> (b: bool)
        ensures
            b == (self.0 == DeadlineState::Never),
    {
        match self.0 {
            DeadlineState::Never => true,
            _ => false,
        }
    }
}

/// A sleep's length in seconds, classified: positive infinity, a finite
/// positive length (its nanoseconds, or `None` if it exceeds a `Duration`),
/// or anything else (zero, negative, not a number).
#[derive(Clone, Copy, Debug, PartialEq, Eq, Structural)]
pub enum SleepSpan {
    Forever,
    Finite(Option<u128>),
    Other,
}

/// How long blocking on a deadline sleeps.
#[derive(Clone, Copy, Debug, PartialEq, Eq, Structural)]
pub enum WaitPlan {
    /// Not at all.
    Now,
    /// This many nanoseconds.
    Sleep(u64),
    /// For ever.
    Forever,
}

impl Deadline {
    /// A deadline for a sleep at clock reading `now`: never for positive
    /// infinity, ready at once for a length that is not positive, else after
    /// the length (which must fit the clock's range).
    pub fn after_span(span: SleepSpan, now: u64) -> (r: Result<Self, DeadlineOverflow>)
        ensures
            span == SleepSpan::Forever ==> r == Ok::<Deadline, DeadlineOverflow>(Deadline(DeadlineState::Never)),
            span == SleepSpan::Other ==> r == Ok::<Deadline, DeadlineOverflow>(Deadline(DeadlineState::Ready)),
            span == SleepSpan::Finite(None) ==> r is Err,
            span matches SleepSpan::Finite(Some(n)) ==> (now + n <= MAX_DEADLINE_NANOS <==> r is Ok) && (r matches Ok(d)
                ==> d.0 == DeadlineState::At((now + n) as u128)),
    {
        match span {
            SleepSpan::Forever => Ok(Deadline::never()),
            SleepSpan::Finite(None) => Err(DeadlineOverflow),
            SleepSpan::Finite(Some(n)) => Deadline::after(now, n),
            SleepSpan::Other => Ok(Deadline::default()),
        }
    }

    /// How long blocking on the deadline sleeps at clock reading `now`; a
    /// sleep longer than `u64::MAX` nanoseconds is cut to that.
    pub fn wait_plan(self, now: u64) -> (p: WaitPlan)
        ensures
            p == (match self.0 {
                DeadlineState::Ready => WaitPlan::Now,
                DeadlineState::At(t) => if t >= now {
                    WaitPlan::Sleep(if t - now > u64::MAX { u64::MAX } else { (t - now) as u64 })
                } else {
                    WaitPlan::Now
                },
                DeadlineState::Never => WaitPlan::Forever,
            }),
    {
        match self.0 {
            DeadlineState::Ready => WaitPlan::Now,
            DeadlineState::At(t) => if t >= now as u128 {
                let left = t - now as u128;
                if left > u64::MAX as u128 {
                    WaitPlan::Sleep(u64::MAX)
                } else {
                    WaitPlan::Sleep(left as u64)
                }
            } else {
                WaitPlan::Now
            },
            DeadlineState::Never => WaitPlan::Forever,
        }
    }
}

/// The base reading from which elapsed time is measured on one runtime thread.
pub struct MonotonicClock {
    base: Option<u64>,
}

impl MonotonicClock {
    /// The base reading, once set.
    pub closed spec fn base(&self) -> Option<u64> {
        self.base
    }

    /// A clock whose base is set by the first reading.
    pub fn new() -> (c: Self)
        ensures
            c.base() == None::<u64>,
    {
        MonotonicClock { base: None }
    }

    /// Nanoseconds elapsed since the first reading (zero for the first one).
    pub fn elapsed_nanos(&mut self, raw_now: u64) -> (e: u64)
        ensures
            final(self).base() == (match old(self).base() {
                Some(b) => Some(b),
                None => Some(raw_now),
            }),
            e == (if raw_now >= final(self).base().unwrap() {
                (raw_now - final(self).base().unwrap()) as u64
            } else {
                0
            }),
    {
        let base = match self.base {
            Some(b) => b,
            None => {
                self.base = Some(raw_now);
                raw_now
            },
        };
        if raw_now >= base {
            raw_now - base
        } else {
            0
        }
    }
}

/// Forget the base reading, so the next reading starts a new epoch.
pub fn reset_monotonic(clock: &mut MonotonicClock)
    ensures
        final(clock).base() == None::<u64>,
{
    clock.base = None;
}

} // verus!
