//! The lifecycle of a command: which snapshot it works on, and what is done to get
//! one. Each step is carried out by the caller; which step comes next, and how the
//! result is labelled, is decided here.

use vstd::prelude::*;
use vstd::string::*;
use crate::cache::types::CacheCompleteness;
use crate::config::GlobalOptions;
use crate::error::CliError;
use crate::execution::cache_policy::{next_slot, slot_after};
use crate::result::{CacheDisposition, Freshness};

verus! {

/// What a command needs of a snapshot.
#[derive(Debug, Clone, Copy, PartialEq, Eq, Structural)]
pub enum Purpose {
    /// To make a new one.
    Index,
    /// To tell about one.
    Status,
    /// To query one without loading it whole.
    Query,
    /// To load one whole.
    Graph,
}

/// The options that decide the lifecycle.
#[derive(Debug, Clone, Copy, PartialEq, Eq, Structural)]
pub struct LifecycleOptions {
    pub no_cache: bool,
    pub frozen: bool,
    pub allow_partial: bool,
    pub allow_stale: bool,
}

impl LifecycleOptions {
    /// The options of a command.
    pub fn of(global: &GlobalOptions) -> (r: Self)
        ensures
            r.no_cache == global.no_cache,
            r.frozen == global.frozen,
            r.allow_partial == global.allow_partial,
            r.allow_stale == global.allow_stale,
    {
        LifecycleOptions {
            no_cache: global.no_cache,
            frozen: global.frozen,
            allow_partial: global.allow_partial,
            allow_stale: global.allow_stale,
        }
    }
}

/// One step of a lifecycle.
#[derive(Debug, Clone, Copy, PartialEq, Eq, Structural)]
pub enum LifecycleStep {
    /// Selects the project.
    SelectProject,
    /// Opens the cache without changing it.
    OpenFrozen,
    /// Looks for the snapshot that a slot shows, in a cache that is not changed.
    FindFrozen { slot: CacheCompleteness },
    /// Reads the wall clock.
    ReadClock,
    /// Prepares a candidate without a cache.
    Prepare,
    /// Opens the cache, creating it where it is missing.
    OpenWritable,
    /// Looks for the snapshot that a slot shows.
    FindActive { slot: CacheCompleteness },
    /// Compares the sources of the snapshot that was found with the files.
    CheckSources,
    /// Loads the snapshot that a refresh starts from.
    LoadPrior { slot: CacheCompleteness },
    /// Prepares a candidate and publishes it.
    Refresh,
    /// Looks for what was just published.
    FindPublished { slot: CacheCompleteness, cache: CacheDisposition },
    /// Looks for a snapshot to fall back on after a refresh that failed.
    FindStale { slot: CacheCompleteness },
}

/// How a step went.
#[derive(Debug, Clone, PartialEq, Eq)]
pub enum LifecycleEvent {
    /// The step was done.
    Done,
    /// The step failed.
    Failed(CliError),
    /// A slot was looked into; or the sources were compared: they are current.
    Found(bool),
    /// A candidate was prepared, or published; the cache gave its prior, or did not.
    Made { completeness: CacheCompleteness, cache: CacheDisposition },
}

/// How far a lifecycle has come. The failure of a refresh is kept while a snapshot to
/// fall back on is looked for.
#[derive(Debug, Clone, PartialEq, Eq)]
pub struct LifecycleState {
    pub step: LifecycleStep,
    pub failure: Option<CliError>,
}

/// What follows.
#[derive(Debug, Clone, PartialEq, Eq)]
pub enum LifecycleNext {
    Do(LifecycleState),
    /// The command goes on with the snapshot that was found or made last.
    Ready { freshness: Freshness, cache: CacheDisposition },
    Fail(CliError),
}

/// The step, with no failure kept.
pub open spec fn then_do(step: LifecycleStep) -> LifecycleNext {
    LifecycleNext::Do(LifecycleState { step, failure: None })
}

/// The step after the project is selected.
pub open spec fn after_selection(purpose: Purpose, options: LifecycleOptions) -> LifecycleStep {
    match purpose {
        Purpose::Index => LifecycleStep::ReadClock,
        Purpose::Status | Purpose::Graph => if options.frozen {
            LifecycleStep::OpenFrozen
        } else {
            LifecycleStep::ReadClock
        },
        Purpose::Query => if options.frozen {
            LifecycleStep::OpenFrozen
        } else if options.no_cache {
            LifecycleStep::ReadClock
        } else {
            LifecycleStep::OpenWritable
        },
    }
}

/// The step after the clock is read.
pub open spec fn after_clock(purpose: Purpose, options: LifecycleOptions) -> LifecycleStep {
    if options.no_cache {
        LifecycleStep::Prepare
    } else if purpose == Purpose::Query {
        LifecycleStep::FindActive { slot: CacheCompleteness::Complete }
    } else {
        LifecycleStep::OpenWritable
    }
}

/// The step after a cache is opened for writing.
pub open spec fn after_opening(purpose: Purpose) -> LifecycleStep {
    match purpose {
        Purpose::Index | Purpose::Graph => LifecycleStep::LoadPrior {
            slot: CacheCompleteness::Complete,
        },
        Purpose::Status => LifecycleStep::FindActive { slot: CacheCompleteness::Complete },
        Purpose::Query => LifecycleStep::ReadClock,
    }
}

/// What follows from how a step went. What does not answer the step is no event of it.
pub open spec fn follows(
    purpose: Purpose,
    options: LifecycleOptions,
    state: LifecycleState,
    event: LifecycleEvent,
) -> Option<LifecycleNext> {
    match event {
        LifecycleEvent::Failed(e) => if state.step == LifecycleStep::Refresh
            && options.allow_stale && purpose != Purpose::Index {
            Some(
                LifecycleNext::Do(
                    LifecycleState {
                        step: LifecycleStep::FindStale { slot: CacheCompleteness::Complete },
                        failure: Some(e),
                    },
                ),
            )
        } else {
            Some(LifecycleNext::Fail(e))
        },
        LifecycleEvent::Done => match state.step {
            LifecycleStep::SelectProject => Some(then_do(after_selection(purpose, options))),
            LifecycleStep::OpenFrozen => Some(
                then_do(LifecycleStep::FindFrozen { slot: CacheCompleteness::Complete }),
            ),
            LifecycleStep::ReadClock => Some(then_do(after_clock(purpose, options))),
            LifecycleStep::OpenWritable => Some(then_do(after_opening(purpose))),
            _ => None,
        },
        LifecycleEvent::Found(found) => match state.step {
            LifecycleStep::FindFrozen { slot } => if found {
                Some(
                    LifecycleNext::Ready {
                        freshness: Freshness::Frozen,
                        cache: CacheDisposition::Hit,
                    },
                )
            } else {
                match slot_after(slot, found, options.allow_partial) {
                    Some(slot) => Some(then_do(LifecycleStep::FindFrozen { slot })),
                    None => Some(LifecycleNext::Fail(CliError::FrozenSnapshotMissing)),
                }
            },
            LifecycleStep::FindActive { slot } => if found {
                Some(then_do(LifecycleStep::CheckSources))
            } else {
                match slot_after(slot, found, options.allow_partial) {
                    Some(slot) => Some(then_do(LifecycleStep::FindActive { slot })),
                    None => Some(then_do(LifecycleStep::Refresh)),
                }
            },
            LifecycleStep::CheckSources => if found {
                Some(
                    LifecycleNext::Ready {
                        freshness: Freshness::Fresh,
                        cache: CacheDisposition::Hit,
                    },
                )
            } else {
                Some(then_do(LifecycleStep::Refresh))
            },
            LifecycleStep::LoadPrior { slot } => match slot_after(
                slot,
                found,
                options.allow_partial,
            ) {
                Some(slot) => Some(then_do(LifecycleStep::LoadPrior { slot })),
                None => Some(then_do(LifecycleStep::Refresh)),
            },
            LifecycleStep::FindPublished { slot, cache } => if found {
                Some(LifecycleNext::Ready { freshness: Freshness::Fresh, cache })
            } else {
                match slot_after(slot, found, options.allow_partial) {
                    Some(slot) => Some(then_do(LifecycleStep::FindPublished { slot, cache })),
                    None => None,
                }
            },
            LifecycleStep::FindStale { slot } => if found {
                Some(
                    LifecycleNext::Ready {
                        freshness: Freshness::Stale,
                        cache: CacheDisposition::Hit,
                    },
                )
            } else {
                match (slot_after(slot, found, options.allow_partial), state.failure) {
                    (Some(slot), _) => Some(
                        LifecycleNext::Do(
                            LifecycleState {
                                step: LifecycleStep::FindStale { slot },
                                failure: state.failure,
                            },
                        ),
                    ),
                    (None, Some(e)) => Some(LifecycleNext::Fail(e)),
                    (None, None) => None,
                }
            },
            _ => None,
        },
        LifecycleEvent::Made { completeness, cache } => match state.step {
            LifecycleStep::Prepare => if completeness == CacheCompleteness::Partial
                && !options.allow_partial {
                Some(LifecycleNext::Fail(CliError::PartialNotAllowed))
            } else {
                Some(
                    LifecycleNext::Ready {
                        freshness: Freshness::Fresh,
                        cache: CacheDisposition::Disabled,
                    },
                )
            },
            LifecycleStep::Refresh => match purpose {
                Purpose::Index | Purpose::Graph => Some(
                    LifecycleNext::Ready { freshness: Freshness::Fresh, cache },
                ),
                Purpose::Status | Purpose::Query => Some(
                    then_do(
                        LifecycleStep::FindPublished { slot: CacheCompleteness::Complete, cache },
                    ),
                ),
            },
            _ => None,
        },
    }
}

/// The next step is what follows. What was published and is not found, and what does
/// not answer a step, are failures that say so.
pub open spec fn is_next(
    purpose: Purpose,
    options: LifecycleOptions,
    state: LifecycleState,
    event: LifecycleEvent,
    next: LifecycleNext,
) -> bool {
    match follows(purpose, options, state, event) {
        Some(n) => next == n,
        None => if state.step is FindPublished && event is Found {
            next matches LifecycleNext::Fail(e) && e.is_cache("published snapshot is not active"@)
        } else {
            next matches LifecycleNext::Fail(e) && e.is_fatal("lifecycle step was not answered"@)
        },
    }
}

fn go_on(step: LifecycleStep) -> (r: LifecycleNext)
    ensures
        r == then_do(step),
{
    LifecycleNext::Do(LifecycleState { step, failure: None })
}

fn unanswered() -> (r: LifecycleNext)
    ensures
        r matches LifecycleNext::Fail(e) && e.is_fatal("lifecycle step was not answered"@),
{
    LifecycleNext::Fail(CliError::Fatal("lifecycle step was not answered".to_owned()))
}

/// Begins a lifecycle.
pub fn begin_lifecycle() -> (r: LifecycleState)
    ensures
        r == (LifecycleState { step: LifecycleStep::SelectProject, failure: None }),
{
    LifecycleState { step: LifecycleStep::SelectProject, failure: None }
}

fn after_done(purpose: Purpose, options: LifecycleOptions, state: LifecycleState) -> (r:
    LifecycleNext)
    ensures
        is_next(purpose, options, state, LifecycleEvent::Done, r),
{
    match state.step {
        LifecycleStep::SelectProject => match purpose {
            Purpose::Index => go_on(LifecycleStep::ReadClock),
            Purpose::Status | Purpose::Graph => if options.frozen {
                go_on(LifecycleStep::OpenFrozen)
            } else {
                go_on(LifecycleStep::ReadClock)
            },
            Purpose::Query => if options.frozen {
                go_on(LifecycleStep::OpenFrozen)
            } else if options.no_cache {
                go_on(LifecycleStep::ReadClock)
            } else {
                go_on(LifecycleStep::OpenWritable)
            },
        },
        LifecycleStep::OpenFrozen => go_on(
            LifecycleStep::FindFrozen { slot: CacheCompleteness::Complete },
        ),
        LifecycleStep::ReadClock => if options.no_cache {
            go_on(LifecycleStep::Prepare)
        } else if purpose == Purpose::Query {
            go_on(LifecycleStep::FindActive { slot: CacheCompleteness::Complete })
        } else {
            go_on(LifecycleStep::OpenWritable)
        },
        LifecycleStep::OpenWritable => match purpose {
            Purpose::Index | Purpose::Graph => go_on(
                LifecycleStep::LoadPrior { slot: CacheCompleteness::Complete },
            ),
            Purpose::Status => go_on(
                LifecycleStep::FindActive { slot: CacheCompleteness::Complete },
            ),
            Purpose::Query => go_on(LifecycleStep::ReadClock),
        },
        _ => unanswered(),
    }
}

fn after_found(
    purpose: Purpose,
    options: LifecycleOptions,
    state: LifecycleState,
    found: bool,
) -> (r: LifecycleNext)
    ensures
        is_next(purpose, options, state, LifecycleEvent::Found(found), r),
{
    match state.step {
        LifecycleStep::FindFrozen { slot } => if found {
            LifecycleNext::Ready { freshness: Freshness::Frozen, cache: CacheDisposition::Hit }
        } else {
            match next_slot(slot, found, options.allow_partial) {
                Some(slot) => go_on(LifecycleStep::FindFrozen { slot }),
                None => LifecycleNext::Fail(CliError::FrozenSnapshotMissing),
            }
        },
        LifecycleStep::FindActive { slot } => if found {
            go_on(LifecycleStep::CheckSources)
        } else {
            match next_slot(slot, found, options.allow_partial) {
                Some(slot) => go_on(LifecycleStep::FindActive { slot }),
                None => go_on(LifecycleStep::Refresh),
            }
        },
        LifecycleStep::CheckSources => if found {
            LifecycleNext::Ready { freshness: Freshness::Fresh, cache: CacheDisposition::Hit }
        } else {
            go_on(LifecycleStep::Refresh)
        },
        LifecycleStep::LoadPrior { slot } => match next_slot(slot, found, options.allow_partial) {
            Some(slot) => go_on(LifecycleStep::LoadPrior { slot }),
            None => go_on(LifecycleStep::Refresh),
        },
        LifecycleStep::FindPublished { slot, cache } => if found {
            LifecycleNext::Ready { freshness: Freshness::Fresh, cache }
        } else {
            match next_slot(slot, found, options.allow_partial) {
                Some(slot) => go_on(LifecycleStep::FindPublished { slot, cache }),
                None => LifecycleNext::Fail(
                    CliError::Cache("published snapshot is not active".to_owned()),
                ),
            }
        },
        LifecycleStep::FindStale { slot } => if found {
            LifecycleNext::Ready { freshness: Freshness::Stale, cache: CacheDisposition::Hit }
        } else {
            match next_slot(slot, found, options.allow_partial) {
                Some(slot) => LifecycleNext::Do(
                    LifecycleState {
                        step: LifecycleStep::FindStale { slot },
                        failure: state.failure,
                    },
                ),
                None => match state.failure {
                    Some(e) => LifecycleNext::Fail(e),
                    None => unanswered(),
                },
            }
        },
        _ => unanswered(),
    }
}

/// Decides what follows from how a step went.
pub fn next_step(
    purpose: Purpose,
    options: LifecycleOptions,
    state: LifecycleState,
    event: LifecycleEvent,
) -> (r: LifecycleNext)
    ensures
        is_next(purpose, options, state, event, r),
{
    match event {
        LifecycleEvent::Failed(e) => if state.step == LifecycleStep::Refresh && options.allow_stale
            && purpose != Purpose::Index {
            LifecycleNext::Do(
                LifecycleState {
                    step: LifecycleStep::FindStale { slot: CacheCompleteness::Complete },
                    failure: Some(e),
                },
            )
        } else {
            LifecycleNext::Fail(e)
        },
        LifecycleEvent::Done => after_done(purpose, options, state),
        LifecycleEvent::Found(found) => after_found(purpose, options, state, found),
        LifecycleEvent::Made { completeness, cache } => match state.step {
            LifecycleStep::Prepare => if completeness == CacheCompleteness::Partial
                && !options.allow_partial {
                LifecycleNext::Fail(CliError::PartialNotAllowed)
            } else {
                LifecycleNext::Ready {
                    freshness: Freshness::Fresh,
                    cache: CacheDisposition::Disabled,
                }
            },
            LifecycleStep::Refresh => match purpose {
                Purpose::Index | Purpose::Graph => LifecycleNext::Ready {
                    freshness: Freshness::Fresh,
                    cache,
                },
                Purpose::Status | Purpose::Query => go_on(
                    LifecycleStep::FindPublished { slot: CacheCompleteness::Complete, cache },
                ),
            },
            _ => unanswered(),
        },
    }
}

/// The steps of a command that uses only what is cached.
pub open spec fn is_frozen_step(s: LifecycleStep) -> bool {
    s is SelectProject || s is OpenFrozen || s is FindFrozen
}

/// A frozen command uses only the cached snapshot: it neither reads the clock, nor
/// opens a cache for writing, nor prepares anything, and what it works on is labelled
/// as frozen.
pub proof fn frozen_commands_change_nothing(
    purpose: Purpose,
    options: LifecycleOptions,
    state: LifecycleState,
    event: LifecycleEvent,
    next: LifecycleNext,
)
    requires
        options.frozen,
        purpose != Purpose::Index,
        is_frozen_step(state.step),
        is_next(purpose, options, state, event, next),
    ensures
        match next {
            LifecycleNext::Do(s) => is_frozen_step(s.step),
            LifecycleNext::Ready { freshness, cache } => freshness == Freshness::Frozen && cache
                == CacheDisposition::Hit,
            LifecycleNext::Fail(_) => true,
        },
{
}

/// The steps of a command without a cache.
pub open spec fn is_cacheless_step(s: LifecycleStep) -> bool {
    s is SelectProject || s is ReadClock || s is Prepare
}

/// A command without a cache never opens or looks into one, and says so.
pub proof fn cacheless_commands_touch_no_cache(
    purpose: Purpose,
    options: LifecycleOptions,
    state: LifecycleState,
    event: LifecycleEvent,
    next: LifecycleNext,
)
    requires
        options.no_cache,
        !options.frozen || purpose == Purpose::Index,
        is_cacheless_step(state.step),
        is_next(purpose, options, state, event, next),
    ensures
        match next {
            LifecycleNext::Do(s) => is_cacheless_step(s.step),
            LifecycleNext::Ready { freshness, cache } => freshness == Freshness::Fresh && cache
                == CacheDisposition::Disabled,
            LifecycleNext::Fail(_) => true,
        },
{
}

/// The slots that a step looks into are allowed, and a snapshot to fall back on is
/// looked for only where stale ones are allowed.
pub open spec fn is_allowed(options: LifecycleOptions, s: LifecycleStep) -> bool {
    match s {
        LifecycleStep::FindFrozen { slot }
        | LifecycleStep::FindActive { slot }
        | LifecycleStep::LoadPrior { slot }
        | LifecycleStep::FindPublished { slot, .. } => slot == CacheCompleteness::Complete
            || options.allow_partial,
        LifecycleStep::FindStale { slot } => options.allow_stale && (slot
            == CacheCompleteness::Complete || options.allow_partial),
        _ => true,
    }
}

/// A stale snapshot is used only where stale ones are allowed, a partial one only where
/// partial ones are, and a complete one is preferred to it.
pub proof fn stale_and_partial_snapshots_need_allowance(
    purpose: Purpose,
    options: LifecycleOptions,
    state: LifecycleState,
    event: LifecycleEvent,
    next: LifecycleNext,
)
    requires
        is_allowed(options, state.step),
        is_next(purpose, options, state, event, next),
    ensures
        match next {
            LifecycleNext::Do(s) => is_allowed(options, s.step),
            LifecycleNext::Ready { freshness, .. } => (freshness == Freshness::Stale
                ==> options.allow_stale) && (event is Made && state.step
                == LifecycleStep::Prepare ==> event->Made_completeness
                == CacheCompleteness::Complete || options.allow_partial),
            LifecycleNext::Fail(_) => true,
        },
        next matches LifecycleNext::Do(s) && s.step == (LifecycleStep::FindActive {
            slot: CacheCompleteness::Partial,
        }) ==> state.step == (LifecycleStep::FindActive { slot: CacheCompleteness::Complete })
            && event == LifecycleEvent::Found(false),
{
}

/// Steps that come before the clock was read and have not touched a cache.
pub open spec fn is_before_clock(s: LifecycleStep) -> bool {
    s is SelectProject || s is ReadClock
}

/// Where a command tells about a snapshot, loads one or makes one, the clock is read
/// before the cache is opened for writing: a clock that fails leaves no cache behind.
pub proof fn clock_is_read_before_the_cache_is_opened(
    purpose: Purpose,
    options: LifecycleOptions,
    state: LifecycleState,
    event: LifecycleEvent,
    next: LifecycleNext,
)
    requires
        purpose != Purpose::Query,
        !options.frozen || purpose == Purpose::Index,
        is_before_clock(state.step),
        is_next(purpose, options, state, event, next),
    ensures
        next matches LifecycleNext::Do(s) && s.step is OpenWritable ==> state.step is ReadClock
            && event is Done,
        state.step is ReadClock && event is Failed ==> next is Fail,
{
}

/// Decides what follows while a graph is loaded for queries, under the same frozen,
/// cacheless, normal and stale policy as any other command.
pub fn load_query_graph(
    options: LifecycleOptions,
    state: LifecycleState,
    event: LifecycleEvent,
) -> (r: LifecycleNext)
    ensures
        is_next(Purpose::Graph, options, state, event, r),
{
    next_step(Purpose::Graph, options, state, event)
}

/// A bound on the steps that come after a step.
pub open spec fn steps_left(purpose: Purpose, step: LifecycleStep) -> nat {
    match step {
        LifecycleStep::SelectProject => 13,
        LifecycleStep::OpenFrozen => 12,
        LifecycleStep::ReadClock => if purpose == Purpose::Query {
            11
        } else {
            12
        },
        LifecycleStep::OpenWritable => if purpose == Purpose::Query {
            12
        } else {
            11
        },
        LifecycleStep::FindActive { slot } | LifecycleStep::LoadPrior { slot } => if slot
            == CacheCompleteness::Complete {
            10
        } else {
            9
        },
        LifecycleStep::CheckSources => 8,
        LifecycleStep::Prepare | LifecycleStep::Refresh => 7,
        LifecycleStep::FindPublished { slot, .. }
        | LifecycleStep::FindStale { slot }
        | LifecycleStep::FindFrozen { slot } => if slot == CacheCompleteness::Complete {
            6
        } else {
            5
        },
    }
}

/// A lifecycle ends: whatever comes of its steps, fewer of them are left each time.
pub proof fn lifecycles_end(
    purpose: Purpose,
    options: LifecycleOptions,
    state: LifecycleState,
    event: LifecycleEvent,
    next: LifecycleNext,
)
    requires
        is_next(purpose, options, state, event, next),
    ensures
        next matches LifecycleNext::Do(n) ==> steps_left(purpose, n.step) < steps_left(
            purpose,
            state.step,
        ),
{
}

} // verus!
