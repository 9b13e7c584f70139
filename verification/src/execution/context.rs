//! What a host provides for the execution of commands.

use std::time::{Duration, SystemTime};
use vstd::prelude::*;
use vstd::string::*;
use crate::deadline::{nanoseconds, Cancellation};
use crate::error::CliError;

verus! {

/// A reading of the wall clock, carried without being looked into.
#[verifier::external_type_specification]
#[verifier::external_body]
pub struct ExSystemTime(std::time::SystemTime);

/// `SystemTime::now` reads the wall clock. Nothing is claimed of the reading.
pub assume_specification[ std::time::SystemTime::now ]() -> (r: SystemTime)
;

/// `Duration::as_nanos` gives the length of a duration in nanoseconds.
pub assume_specification[ std::time::Duration::as_nanos ](d: &Duration) -> (r: u128)
    ensures
        r == nanoseconds(*d),
;

/// How far a reading lies behind the Unix epoch, in nanoseconds; before the epoch it is
/// negative.
pub uninterp spec fn nanoseconds_since_epoch(t: SystemTime) -> int;

/// `SystemTime::duration_since` gives the time from the Unix epoch to a reading, and
/// fails if and only if the reading lies before it. It depends on the reading alone.
/// The text of the failure is not claimed.
#[verifier::external_body]
fn since_epoch(t: SystemTime) -> (r: Result<Duration, String>)
    ensures
        match r {
            Ok(d) => nanoseconds(d) == nanoseconds_since_epoch(t),
            Err(_) => nanoseconds_since_epoch(t) < 0,
        },
{
    t.duration_since(std::time::UNIX_EPOCH).map_err(|e| e.to_string())
}

/// Wall-clock source used only for persisted snapshot timestamps.
pub trait Clock: Send + Sync {
    /// Returns checked nanoseconds since the Unix epoch.
    fn unix_time_ns(&self) -> Result<u64, CliError>;
}

/// Turns a reading of the wall clock into nanoseconds since the epoch; one before the
/// epoch, or too far behind it, is a failure.
pub fn checked_unix_time(reading: Result<u128, String>) -> (r: Result<u64, CliError>)
    ensures
        match reading {
            Ok(ns) => if ns <= u64::MAX {
                r == Ok::<u64, CliError>(ns as u64)
            } else {
                r is Err && r->Err_0.is_fatal("system clock nanoseconds overflow u64"@)
            },
            Err(why) => r is Err && r->Err_0.is_fatal(
                "system clock precedes Unix epoch: "@ + why@,
            ),
        },
{
    match reading {
        Ok(ns) => if ns <= u64::MAX as u128 {
            Ok(ns as u64)
        } else {
            Err(CliError::Fatal("system clock nanoseconds overflow u64".to_owned()))
        },
        Err(why) => {
            let mut message: String = "system clock precedes Unix epoch: ".to_owned();
            message.append(why.as_str());
            Err(CliError::Fatal(message))
        },
    }
}

/// The result is what a reading of the wall clock gives: its nanoseconds since the
/// epoch where they fit, and otherwise a failure that says on which side they lie.
pub open spec fn is_checked_reading(t: SystemTime, r: Result<u64, CliError>) -> bool {
    let ns = nanoseconds_since_epoch(t);
    if ns < 0 {
        r is Err && exists|why: Seq<char>| #[trigger]
            r->Err_0.is_fatal("system clock precedes Unix epoch: "@ + why)
    } else if ns <= u64::MAX {
        r == Ok::<u64, CliError>(ns as u64)
    } else {
        r is Err && r->Err_0.is_fatal("system clock nanoseconds overflow u64"@)
    }
}

/// Production wall-clock implementation.
#[derive(Debug, Default)]
pub struct SystemClock;

impl Clock for SystemClock {
    fn unix_time_ns(&self) -> (r: Result<u64, CliError>)
        ensures
            exists|t: SystemTime| call_ensures(SystemTime::now, (), t) && #[trigger]
                is_checked_reading(t, r),
    {
        let now = SystemTime::now();
        let reading: Result<u128, String> = match since_epoch(now) {
            Ok(duration) => Ok(duration.as_nanos()),
            Err(why) => Err(why),
        };
        let r = checked_unix_time(reading);
        assert(is_checked_reading(now, r));
        r
    }
}

/// Explicit host-owned execution dependencies. Paths are held as the bytes of their
/// native spelling.
pub struct ExecutionContext<'a, C: Cancellation, K: Clock> {
    pub cwd: Vec<u8>,
    pub cache_base: Option<Vec<u8>>,
    pub cancellation: &'a C,
    pub clock: &'a K,
}

impl<'a, C: Cancellation, K: Clock> ExecutionContext<'a, C, K> {
    /// Constructs a context without consulting process-global state.
    pub fn new(
        cwd: Vec<u8>,
        cache_base: Option<Vec<u8>>,
        cancellation: &'a C,
        clock: &'a K,
    ) -> (r: Self)
        ensures
            r.cwd == cwd,
            r.cache_base == cache_base,
            r.cancellation == cancellation,
            r.clock == clock,
    {
        ExecutionContext { cwd, cache_base, cancellation, clock }
    }
}

} // verus!
