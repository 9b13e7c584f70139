//! Command-wide monotonic deadlines and cancellation checks.

use std::time::{Duration, Instant};
use vstd::prelude::*;
use crate::error::CliError;

verus! {

/// A reading of the monotonic clock, carried without being looked into.
#[verifier::external_type_specification]
#[verifier::external_body]
pub struct ExInstant(std::time::Instant);

/// `Instant::now` reads the monotonic clock. Nothing is claimed of the reading.
pub assume_specification[ std::time::Instant::now ]() -> (r: Instant)
;

/// `Instant::elapsed` gives the time since a reading. It depends on the clock:
/// nothing is claimed of it.
pub assume_specification[ std::time::Instant::elapsed ](i: &Instant) -> (r: Duration)
;

/// The length of a duration in nanoseconds.
pub uninterp spec fn nanoseconds(d: Duration) -> nat;

/// `Duration::saturating_sub` gives the difference of two durations, or an empty one
/// where the second is the longer.
pub assume_specification[ std::time::Duration::saturating_sub ](a: Duration, b: Duration) -> (r:
    Duration)
    ensures
        nanoseconds(r) == if nanoseconds(a) >= nanoseconds(b) {
            nanoseconds(a) - nanoseconds(b)
        } else {
            0
        },
;

/// `Duration::is_zero` tells whether a duration is empty.
pub assume_specification[ std::time::Duration::is_zero ](d: &Duration) -> (r: bool)
    ensures
        r == (nanoseconds(*d) == 0),
;

/// Cooperative cancellation source for command execution.
pub trait Cancellation: Send + Sync {
    /// The source will not ask for a stop. Nothing is known of one that does not say so.
    open spec fn never_cancels(&self) -> bool {
        false
    }

    /// Returns true when the operation must stop.
    fn is_cancelled(&self) -> (r: bool)
        ensures
            self.never_cancels() ==> !r,
    ;
}

/// A cancellation source which never cancels.
#[derive(Debug, Default)]
pub struct NeverCancelled;

impl Cancellation for NeverCancelled {
    open spec fn never_cancels(&self) -> bool {
        true
    }

    fn is_cancelled(&self) -> (r: bool) {
        false
    }
}

/// A command-wide timeout measured from construction using a monotonic clock.
#[derive(Debug, Clone)]
pub struct Deadline {
    limit: Option<(Instant, Duration)>,
}

/// What a cancellation flag and the time left decide: a cancellation comes before
/// a timeout, and only an empty rest of a configured timeout is one.
pub open spec fn interruption(cancelled: bool, expired: Option<bool>) -> Option<CliError> {
    if cancelled {
        Some(CliError::Cancelled)
    } else if expired == Some(true) {
        Some(CliError::Timeout)
    } else {
        None
    }
}

/// Decides from a cancellation flag and, where a timeout is configured, from
/// whether it is used up.
pub fn check_interruption(cancelled: bool, expired: Option<bool>) -> (r: Result<(), CliError>)
    ensures
        match interruption(cancelled, expired) {
            Some(e) => r == Err::<(), CliError>(e),
            None => r is Ok,
        },
{
    if cancelled {
        return Err(CliError::Cancelled);
    }
    match expired {
        Some(true) => Err(CliError::Timeout),
        _ => Ok(()),
    }
}

/// The source may answer this when it is asked whether to stop.
pub open spec fn may_say<C: Cancellation + ?Sized>(cancellation: &C, stop: bool) -> bool {
    call_ensures(C::is_cancelled, (cancellation,), stop)
}

/// The failure of an operation, if it failed.
pub open spec fn failure_of<T>(r: Result<T, CliError>) -> Option<CliError> {
    match r {
        Ok(_) => None,
        Err(e) => Some(e),
    }
}

/// A check of the deadline and of the source may find this: a cancellation where the source
/// says so, and otherwise a timeout exactly where the clock leaves nothing of one.
pub open spec fn may_find<C: Cancellation + ?Sized>(
    deadline: Deadline,
    cancellation: &C,
    found: Option<CliError>,
) -> bool {
    match found {
        None => may_say(cancellation, false) && deadline.may_have_time(),
        Some(CliError::Cancelled) => may_say(cancellation, true),
        Some(CliError::Timeout) => may_say(cancellation, false) && deadline.may_be_used_up(),
        Some(_) => false,
    }
}

/// The deadline and the source are checked, and what the check finds is heeded: it finds
/// nothing, or the operation fails with what it finds.
pub open spec fn heeds<C: Cancellation + ?Sized>(
    deadline: Deadline,
    cancellation: &C,
    failure: Option<CliError>,
) -> bool {
    may_find(deadline, cancellation, None) || (failure is Some && may_find(
        deadline,
        cancellation,
        failure,
    ))
}

/// An operation may go on: the source says that it is not cancelled, and there is time.
pub open spec fn may_go_on<C: Cancellation + ?Sized>(deadline: Deadline, cancellation: &C) -> bool {
    may_find(deadline, cancellation, None)
}

/// The failure is an interruption that can come: a cancellation of a source that said
/// so, or the end of a timeout of which the clock leaves nothing.
pub open spec fn is_interruption<C: Cancellation + ?Sized>(
    e: CliError,
    deadline: Deadline,
    cancellation: &C,
) -> bool {
    may_find(deadline, cancellation, Some(e)) && (e == CliError::Cancelled
        ==> !cancellation.never_cancels())
}

/// The number, or the largest there is where it is larger.
pub open spec fn saturated(n: nat) -> u64 {
    if n <= u64::MAX {
        n as u64
    } else {
        u64::MAX
    }
}

/// The length of a duration in nanoseconds, or the largest number where it is longer.
pub fn whole_nanoseconds(d: Duration) -> (r: u64)
    ensures
        r == saturated(nanoseconds(d)),
{
    let length: u128 = d.as_nanos();
    if length <= u64::MAX as u128 {
        length as u64
    } else {
        u64::MAX
    }
}

/// The whole milliseconds of a duration, or the largest number where there are more.
pub fn whole_milliseconds(d: Duration) -> (r: u64)
    ensures
        r == saturated(nanoseconds(d) / 1_000_000),
{
    let length: u128 = d.as_nanos() / 1_000_000;
    if length <= u64::MAX as u128 {
        length as u64
    } else {
        u64::MAX
    }
}

/// What is left of a timeout once some time has passed.
pub open spec fn time_left(span: nat, passed: nat) -> nat {
    if passed <= span {
        (span - passed) as nat
    } else {
        0
    }
}

/// The rest of a timeout never grows while time passes, is never more than the timeout,
/// and once it is used up it stays so.
pub proof fn the_rest_never_grows(span: nat, earlier: nat, later: nat)
    requires
        earlier <= later,
    ensures
        time_left(span, later) <= time_left(span, earlier) <= span,
        time_left(span, earlier) == 0 ==> time_left(span, later) == 0,
        time_left(0, earlier) == 0,
{
}

impl Deadline {
    /// The configured timeout in nanoseconds.
    pub closed spec fn span(self) -> Option<nat> {
        match self.limit {
            Some(limit) => Some(nanoseconds(limit.1)),
            None => None,
        }
    }

    /// A timeout is configured.
    pub open spec fn limited(self) -> bool {
        self.span() is Some
    }

    /// Creates an optional deadline. A zero timeout is immediately expired.
    pub fn new(timeout: Option<Duration>) -> (r: Self)
        ensures
            r.span() == match timeout {
                Some(duration) => Some(nanoseconds(duration)),
                None => None,
            },
    {
        match timeout {
            Some(duration) => Deadline { limit: Some((Instant::now(), duration)) },
            None => Deadline { limit: None },
        }
    }

    /// The clock may say that this much time has passed since the deadline was set.
    pub closed spec fn may_have_passed(self, passed: Duration) -> bool {
        match self.limit {
            Some(limit) => call_ensures(Instant::elapsed, (&limit.0,), passed),
            None => false,
        }
    }

    /// Returns the time left, or `None` when no timeout was configured.
    pub fn remaining(&self) -> (r: Option<Duration>)
        ensures
            r is Some == self.limited(),
            r matches Some(left) ==> nanoseconds(left) <= self.span()->0 && exists|passed: Duration|
             #[trigger]
                self.may_have_passed(passed) && nanoseconds(left) == time_left(
                    self.span()->0,
                    nanoseconds(passed),
                ),
    {
        match &self.limit {
            Some((started, timeout)) => {
                let passed = started.elapsed();
                assert(self.may_have_passed(passed));
                Some(timeout.saturating_sub(passed))
            },
            None => None,
        }
    }

    /// A timeout is configured, and the clock may say that nothing of it is left.
    pub open spec fn may_be_used_up(self) -> bool {
        self.limited() && exists|passed: Duration| #[trigger]
            self.may_have_passed(passed) && time_left(self.span()->0, nanoseconds(passed)) == 0
    }

    /// No timeout is configured, or the clock may say that something of it is left.
    pub open spec fn may_have_time(self) -> bool {
        self.limited() ==> exists|passed: Duration| #[trigger]
            self.may_have_passed(passed) && time_left(self.span()->0, nanoseconds(passed)) > 0
    }

    /// The clock is asked, and heeded: there is time, or the operation is timed out.
    pub open spec fn heeds_clock(self, timed_out: bool) -> bool {
        self.may_have_time() || (self.may_be_used_up() && timed_out)
    }

    /// Checks this deadline and a cooperative cancellation source. A timeout of no length
    /// is used up at once.
    pub fn check<C: Cancellation + ?Sized>(&self, cancellation: &C) -> (r: Result<(), CliError>)
        ensures
            may_find(*self, cancellation, failure_of(r)),
            !self.limited() ==> exists|stop: bool| #[trigger]
                may_say(cancellation, stop) && failure_of(r) == interruption(stop, None),
            self.limited() ==> exists|stop: bool, passed: Duration|
                #![trigger may_say(cancellation, stop), self.may_have_passed(passed)]
                may_say(cancellation, stop) && self.may_have_passed(passed) && failure_of(r)
                    == interruption(
                    stop,
                    Some(time_left(self.span()->0, nanoseconds(passed)) == 0),
                ),
            r matches Err(e) ==> is_interruption(e, *self, cancellation),
    {
        let cancelled = cancellation.is_cancelled();
        assert(may_say(cancellation, cancelled));
        let expired = match self.remaining() {
            Some(left) => Some(left.is_zero()),
            None => None,
        };
        check_interruption(cancelled, expired)
    }
}

/// A cancellation is told apart from a timeout even when both hold, and without a
/// timeout nothing expires.
pub proof fn cancellation_is_not_a_timeout(expired: Option<bool>)
    ensures
        interruption(true, expired) == Some(CliError::Cancelled),
        interruption(false, Some(true)) == Some(CliError::Timeout),
        interruption(false, None) is None,
{
}

} // verus!
