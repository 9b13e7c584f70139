//! Bounded retries of a refresh whose inputs drift.

use vstd::prelude::*;
use vstd::string::*;
use crate::config::{
    are_rules_of, is_rules_failure, load_query_binding_rules, rule_ok, ConfigRead,
    QueryBindingRule,
};
use crate::deadline::{
    failure_of, heeds, is_interruption, Cancellation, Deadline,
};
use crate::error::CliError;
use crate::refresh::plan::MAX_REFRESH_ATTEMPTS;

verus! {

/// Why one attempt did not give a candidate.
#[derive(Debug)]
pub enum AttemptError {
    /// An input changed while it was being read.
    Drift,
    /// Nothing that another attempt could mend.
    Fatal(CliError),
}

/// The failure that ended an attempt for good, if one did.
pub open spec fn attempt_failure<T>(r: Result<T, AttemptError>) -> Option<CliError> {
    match r {
        Err(AttemptError::Fatal(e)) => Some(e),
        _ => None,
    }
}

impl From<CliError> for AttemptError {
    fn from(value: CliError) -> (r: AttemptError) {
        AttemptError::Fatal(value)
    }
}

impl vstd::std_specs::convert::FromSpecImpl<CliError> for AttemptError {
    open spec fn obeys_from_spec() -> bool {
        true
    }

    open spec fn from_spec(v: CliError) -> AttemptError {
        AttemptError::Fatal(v)
    }
}

/// The message for inputs that drifted in every attempt.
pub open spec fn is_exhausted(e: CliError) -> bool {
    e.is_index("refresh source continued to drift after bounded retries"@)
}

/// What to do after an attempt.
#[derive(Debug)]
pub enum RetryStep<T> {
    /// Attempt once more, with this number.
    Again(u8),
    /// The refresh has ended.
    Done(Result<T, CliError>),
}

/// The step that follows the outcome of the attempt with number `attempt`.
pub open spec fn is_next_step<T>(
    attempt: u8,
    outcome: Result<T, AttemptError>,
    step: RetryStep<T>,
) -> bool {
    match outcome {
        Ok(value) => step == RetryStep::<T>::Done(Ok(value)),
        Err(AttemptError::Fatal(e)) => step == RetryStep::<T>::Done(Err(e)),
        Err(AttemptError::Drift) => if attempt < MAX_REFRESH_ATTEMPTS {
            step == RetryStep::<T>::Again((attempt + 1) as u8)
        } else {
            step matches RetryStep::Done(Err(e)) && is_exhausted(e)
        },
    }
}

/// Decides what follows the outcome of an attempt.
pub fn next_step<T>(attempt: u8, outcome: Result<T, AttemptError>) -> (step: RetryStep<T>)
    ensures
        is_next_step(attempt, outcome, step),
{
    match outcome {
        Ok(value) => RetryStep::Done(Ok(value)),
        Err(AttemptError::Fatal(e)) => RetryStep::Done(Err(e)),
        Err(AttemptError::Drift) => {
            if attempt < MAX_REFRESH_ATTEMPTS {
                RetryStep::Again(attempt + 1)
            } else {
                RetryStep::Done(
                    Err(
                        CliError::Index(
                            "refresh source continued to drift after bounded retries".to_owned(),
                        ),
                    ),
                )
            }
        },
    }
}

/// Every attempt before number `k` drifted.
pub open spec fn drifted_before<T, F: Fn(u8) -> Result<T, AttemptError>>(f: F, k: int) -> bool {
    forall|j: u8|
        1 <= j < k ==> #[trigger] call_ensures(f, (j,), Err::<T, AttemptError>(AttemptError::Drift))
}

/// Attempt number `k` was the first that did not drift, and this was its outcome.
pub open spec fn first_settled<T, F: Fn(u8) -> Result<T, AttemptError>>(
    f: F,
    k: u8,
    outcome: Result<T, AttemptError>,
) -> bool {
    &&& 1 <= k <= MAX_REFRESH_ATTEMPTS
    &&& drifted_before(f, k as int)
    &&& call_ensures(f, (k,), outcome)
}

/// The result is that of the first attempt that did not drift, or of exhaustion.
pub open spec fn is_retried<T, C: Cancellation + ?Sized, F: Fn(u8) -> Result<T, AttemptError>>(
    f: F,
    deadline: Deadline,
    cancellation: &C,
    r: Result<T, CliError>,
) -> bool {
    match r {
        Ok(value) => exists|k: u8| first_settled(f, k, Ok::<T, AttemptError>(value)),
        Err(e) => {
            ||| is_interruption(e, deadline, cancellation)
            ||| (is_exhausted(e) && drifted_before(f, MAX_REFRESH_ATTEMPTS + 1))
            ||| exists|k: u8|
                first_settled(f, k, Err::<T, AttemptError>(AttemptError::Fatal(e)))
        },
    }
}

/// Runs attempts until one does not drift, at most [`MAX_REFRESH_ATTEMPTS`] times.
pub fn retry_drift<T, C: Cancellation + ?Sized, F: Fn(u8) -> Result<T, AttemptError>>(
    deadline: &Deadline,
    cancellation: &C,
    attempt_fn: F,
) -> (r: Result<T, CliError>)
    requires
        forall|k: u8| 1 <= k <= MAX_REFRESH_ATTEMPTS ==> call_requires(attempt_fn, (k,)),
    ensures
        is_retried(attempt_fn, *deadline, cancellation, r),
        heeds(*deadline, cancellation, failure_of(r)),
{
    let mut attempt: u8 = 1;
    loop
        invariant
            1 <= attempt <= MAX_REFRESH_ATTEMPTS,
            forall|k: u8| 1 <= k <= MAX_REFRESH_ATTEMPTS ==> call_requires(attempt_fn, (k,)),
            drifted_before(attempt_fn, attempt as int),
        decreases MAX_REFRESH_ATTEMPTS - attempt,
    {
        match deadline.check(cancellation) {
            Ok(()) => {},
            Err(e) => {
                return Err(e);
            },
        }
        let outcome = attempt_fn(attempt);
        let ghost o = outcome;
        assert(first_settled(attempt_fn, attempt, o));
        proof {
            if o == Err::<T, AttemptError>(AttemptError::Drift) {
                assert forall|j: u8| 1 <= j < attempt + 1 implies #[trigger] call_ensures(
                    attempt_fn,
                    (j,),
                    Err::<T, AttemptError>(AttemptError::Drift),
                ) by {
                    if j == attempt {
                        assert(call_ensures(attempt_fn, (attempt,), o));
                    }
                }
                assert(drifted_before(attempt_fn, attempt + 1));
            }
        }
        match next_step(attempt, outcome) {
            RetryStep::Again(next) => {
                attempt = next;
            },
            RetryStep::Done(result) => {
                let ghost res = result;
                proof {
                    match res {
                        Ok(v) => {
                            assert(first_settled(attempt_fn, attempt, Ok::<T, AttemptError>(v)));
                        },
                        Err(e) => {
                            if o != Err::<T, AttemptError>(AttemptError::Drift) {
                                assert(first_settled(
                                    attempt_fn,
                                    attempt,
                                    Err::<T, AttemptError>(AttemptError::Fatal(e)),
                                ));
                            } else {
                                assert(is_exhausted(e));
                                assert(drifted_before(attempt_fn, MAX_REFRESH_ATTEMPTS + 1));
                            }
                        },
                    }
                    assert(is_retried(attempt_fn, *deadline, cancellation, res));
                }
                return result;
            },
        }
    }
}

/// The attempts before the given one drifted, all of them with the rules.
pub open spec fn drifted_with<
    T,
    F: Fn(&Vec<QueryBindingRule>, u8) -> Result<T, AttemptError>,
>(f: F, rules: Vec<QueryBindingRule>, n: int) -> bool {
    forall|j: u8|
        1 <= j < n ==> #[trigger] call_ensures(
            f,
            (&rules, j),
            Err::<T, AttemptError>(AttemptError::Drift),
        )
}

/// Attempt number `k` with the rules was the first that did not drift, and this was its
/// outcome.
pub open spec fn settled_with<
    T,
    F: Fn(&Vec<QueryBindingRule>, u8) -> Result<T, AttemptError>,
>(f: F, rules: Vec<QueryBindingRule>, k: u8, outcome: Result<T, AttemptError>) -> bool {
    &&& 1 <= k <= MAX_REFRESH_ATTEMPTS
    &&& drifted_with(f, rules, k as int)
    &&& call_ensures(f, (&rules, k), outcome)
}

/// The result is that of the first attempt with the rules that did not drift, or of
/// exhaustion.
pub open spec fn is_prepared_with<
    T,
    C: Cancellation + ?Sized,
    F: Fn(&Vec<QueryBindingRule>, u8) -> Result<T, AttemptError>,
>(
    f: F,
    rules: Vec<QueryBindingRule>,
    deadline: Deadline,
    cancellation: &C,
    r: Result<T, CliError>,
) -> bool {
    match r {
        Ok(value) => exists|k: u8| settled_with(f, rules, k, Ok::<T, AttemptError>(value)),
        Err(e) => {
            ||| is_interruption(e, deadline, cancellation)
            ||| (is_exhausted(e) && drifted_with(f, rules, MAX_REFRESH_ATTEMPTS + 1))
            ||| exists|k: u8|
                settled_with(f, rules, k, Err::<T, AttemptError>(AttemptError::Fatal(e)))
        },
    }
}

/// The rules are those of the configuration that was read.
pub open spec fn are_configured(config: ConfigRead, rules: Seq<QueryBindingRule>) -> bool {
    match config {
        ConfigRead::Absent => rules.len() == 0,
        ConfigRead::Tables(raws) => are_rules_of(raws@, rules),
        _ => false,
    }
}

/// The preparation was made with the configured rules.
pub open spec fn is_prepared<
    T,
    C: Cancellation + ?Sized,
    F: Fn(&Vec<QueryBindingRule>, u8) -> Result<T, AttemptError>,
>(f: F, config: ConfigRead, deadline: Deadline, cancellation: &C, r: Result<T, CliError>) -> bool {
    exists|rules: Vec<QueryBindingRule>|
        #![trigger are_configured(config, rules@)]
        are_configured(config, rules@) && is_prepared_with(f, rules, deadline, cancellation, r)
}

/// Runs attempts with the rules until one does not drift.
fn retry_with<
    T,
    C: Cancellation + ?Sized,
    F: Fn(&Vec<QueryBindingRule>, u8) -> Result<T, AttemptError>,
>(rules: &Vec<QueryBindingRule>, deadline: &Deadline, cancellation: &C, attempt_fn: F) -> (r: Result<
    T,
    CliError,
>)
    requires
        forall|rules: &Vec<QueryBindingRule>, k: u8| #[trigger]
            call_requires(attempt_fn, (rules, k)),
    ensures
        is_prepared_with(attempt_fn, *rules, *deadline, cancellation, r),
        heeds(*deadline, cancellation, failure_of(r)),
{
    let mut attempt: u8 = 1;
    loop
        invariant
            1 <= attempt <= MAX_REFRESH_ATTEMPTS,
            forall|rules: &Vec<QueryBindingRule>, k: u8| #[trigger]
                call_requires(attempt_fn, (rules, k)),
            drifted_with(attempt_fn, *rules, attempt as int),
        decreases MAX_REFRESH_ATTEMPTS - attempt,
    {
        match deadline.check(cancellation) {
            Ok(()) => {},
            Err(e) => {
                return Err(e);
            },
        }
        let outcome = attempt_fn(rules, attempt);
        let ghost o = outcome;
        assert(settled_with(attempt_fn, *rules, attempt, o));
        proof {
            if o == Err::<T, AttemptError>(AttemptError::Drift) {
                assert forall|j: u8| 1 <= j < attempt + 1 implies #[trigger] call_ensures(
                    attempt_fn,
                    (rules, j),
                    Err::<T, AttemptError>(AttemptError::Drift),
                ) by {
                    if j == attempt {
                        assert(call_ensures(attempt_fn, (rules, attempt), o));
                    }
                }
                assert(drifted_with(attempt_fn, *rules, attempt + 1));
            }
        }
        match next_step(attempt, outcome) {
            RetryStep::Again(next) => {
                attempt = next;
            },
            RetryStep::Done(result) => {
                let ghost res = result;
                proof {
                    match res {
                        Ok(v) => {
                            assert(settled_with(attempt_fn, *rules, attempt, Ok::<T, AttemptError>(v)));
                        },
                        Err(e) => {
                            if o != Err::<T, AttemptError>(AttemptError::Drift) {
                                assert(settled_with(
                                    attempt_fn,
                                    *rules,
                                    attempt,
                                    Err::<T, AttemptError>(AttemptError::Fatal(e)),
                                ));
                            } else {
                                assert(is_exhausted(e));
                                assert(drifted_with(attempt_fn, *rules, MAX_REFRESH_ATTEMPTS + 1));
                            }
                        },
                    }
                    assert(is_prepared_with(attempt_fn, *rules, *deadline, cancellation, res));
                }
                return result;
            },
        }
    }
}

/// Prepares a candidate with the rules that the project brings: a configuration that
/// cannot be used is told before anything is prepared, and a preparation whose sources
/// drift is repeated, within bounds.
pub fn prepare_refresh_candidate<
    T,
    C: Cancellation + ?Sized,
    F: Fn(&Vec<QueryBindingRule>, u8) -> Result<T, AttemptError>,
>(config: ConfigRead, path: &str, deadline: &Deadline, cancellation: &C, attempt_fn: F) -> (r:
    Result<T, CliError>)
    requires
        forall|rules: &Vec<QueryBindingRule>, k: u8| #[trigger]
            call_requires(attempt_fn, (rules, k)),
    ensures
        match config {
            ConfigRead::Absent => is_prepared(attempt_fn, config, *deadline, cancellation, r)
                && heeds(*deadline, cancellation, failure_of(r)),
            ConfigRead::Unreadable { why } => r is Err && r->Err_0.is_fatal(
                "failed to read "@ + path@ + ": "@ + why@,
            ),
            ConfigRead::Malformed { why } => r is Err && r->Err_0.is_fatal(
                "failed to parse "@ + path@ + ": "@ + why@,
            ),
            ConfigRead::Tables(raws) => if forall|i: int|
                0 <= i < raws@.len() ==> rule_ok(#[trigger] raws@[i]) {
                is_prepared(attempt_fn, config, *deadline, cancellation, r) && heeds(
                    *deadline,
                    cancellation,
                    failure_of(r),
                )
            } else {
                r is Err && is_rules_failure(raws@, path@, r->Err_0)
            },
        },
{
    let ghost given = config;
    let rules = match load_query_binding_rules(config, path) {
        Ok(rules) => rules,
        Err(e) => {
            return Err(e);
        },
    };
    assert(are_configured(given, rules@));
    let r = retry_with(&rules, deadline, cancellation, attempt_fn);
    let ghost res = r;
    proof {
        assert(is_prepared_with(attempt_fn, rules, *deadline, cancellation, res));
        assert(is_prepared(attempt_fn, given, *deadline, cancellation, res));
    }
    r
}

} // verus!
