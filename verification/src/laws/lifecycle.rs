//! Laws of the lifecycle of a command: when it is ready, what it works on then, and what
//! it does to the cache on the way.

use vstd::prelude::*;
use vstd::string::*;
use crate::cache::types::CacheCompleteness;
use crate::error::CliError;
use crate::execution::lifecycle::{
    is_next, LifecycleEvent, LifecycleNext, LifecycleOptions, LifecycleState, LifecycleStep,
    Purpose,
};
use crate::result::{CacheDisposition, Freshness};

verus! {

/// A cached snapshot is called fresh only once its sources were compared and found current,
/// for every purpose and under all options. Sources that have changed lead to a refresh and
/// to nothing else.
pub proof fn changed_sources_are_refreshed(
    purpose: Purpose,
    options: LifecycleOptions,
    state: LifecycleState,
    event: LifecycleEvent,
    next: LifecycleNext,
)
    requires
        is_next(purpose, options, state, event, next),
        state.step is CheckSources,
    ensures
        next is Ready ==> event == LifecycleEvent::Found(true) && next == (LifecycleNext::Ready {
            freshness: Freshness::Fresh,
            cache: CacheDisposition::Hit,
        }),
        event == LifecycleEvent::Found(true) ==> next is Ready,
        event == LifecycleEvent::Found(false) ==> next == LifecycleNext::Do(
            LifecycleState { step: LifecycleStep::Refresh, failure: None },
        ),
{
}

/// What a command works on is labelled by where it came from, and by nothing else: frozen
/// where it was found in a cache that is left alone, stale where it was found after a refresh
/// failed, fresh where its sources were compared, or where it was just prepared or published.
pub proof fn labels_tell_where_a_snapshot_came_from(
    purpose: Purpose,
    options: LifecycleOptions,
    state: LifecycleState,
    event: LifecycleEvent,
    freshness: Freshness,
    cache: CacheDisposition,
)
    requires
        is_next(purpose, options, state, event, LifecycleNext::Ready { freshness, cache }),
    ensures
        freshness == Freshness::Frozen <==> state.step is FindFrozen,
        freshness == Freshness::Stale <==> state.step is FindStale,
        freshness == Freshness::Fresh <==> state.step is CheckSources || state.step is FindPublished
            || state.step is Prepare || state.step is Refresh,
        event is Found || event is Made,
        event matches LifecycleEvent::Found(found) ==> found,
        event is Made <==> state.step is Prepare || state.step is Refresh,
        state.step is Refresh ==> purpose == Purpose::Index || purpose == Purpose::Graph,
        state.step is Prepare ==> cache == CacheDisposition::Disabled,
        state.step is FindFrozen || state.step is FindStale || state.step is CheckSources ==> cache
            == CacheDisposition::Hit,
        state.step matches LifecycleStep::FindPublished { cache: told, .. } ==> cache == told,
        state.step is Refresh ==> (event matches LifecycleEvent::Made { cache: told, .. } && cache
            == told),
{
}

/// The slot of a step that looks into one.
pub open spec fn slot_looked_into(step: LifecycleStep) -> Option<CacheCompleteness> {
    match step {
        LifecycleStep::FindFrozen { slot } => Some(slot),
        LifecycleStep::FindActive { slot } => Some(slot),
        LifecycleStep::LoadPrior { slot } => Some(slot),
        LifecycleStep::FindPublished { slot, .. } => Some(slot),
        LifecycleStep::FindStale { slot } => Some(slot),
        _ => None,
    }
}

/// A snapshot that is found where one is looked for is used: as it is in a frozen cache,
/// after a failed refresh and after publication, once its sources are compared otherwise.
/// Where none is found, the slot of partial snapshots follows that of complete ones exactly
/// where partial ones are allowed, in the same search and with the same failure kept; and
/// where no slot is left, a frozen command has no snapshot, a search for an active one or
/// for a prior ends in a refresh, and a search for a stale one in the failure that it began
/// with.
pub proof fn searches_go_from_slot_to_slot(
    purpose: Purpose,
    options: LifecycleOptions,
    state: LifecycleState,
    found: bool,
    next: LifecycleNext,
)
    requires
        is_next(purpose, options, state, LifecycleEvent::Found(found), next),
        slot_looked_into(state.step) is Some,
    ensures
        ({
            let slot = slot_looked_into(state.step)->0;
            let partial_is_left = slot == CacheCompleteness::Complete && options.allow_partial;
            let refresh = LifecycleNext::Do(
                LifecycleState { step: LifecycleStep::Refresh, failure: None },
            );
            &&& found && state.step is FindActive ==> (next matches LifecycleNext::Do(s)
                && s.step is CheckSources)
            &&& found && state.step is LoadPrior ==> next == refresh
            &&& found && !(state.step is FindActive) && !(state.step is LoadPrior) ==> next is Ready
            &&& !found && partial_is_left ==> (next matches LifecycleNext::Do(s)
                && slot_looked_into(s.step) == Some(CacheCompleteness::Partial) && (
            state.step is FindFrozen <==> s.step is FindFrozen) && (state.step is FindActive
                <==> s.step is FindActive) && (state.step is LoadPrior <==> s.step is LoadPrior)
                && (state.step is FindPublished <==> s.step is FindPublished) && (
            state.step is FindStale <==> s.step is FindStale) && (state.step is FindStale
                ==> s.failure == state.failure) && (state.step is FindPublished
                ==> s.step->FindPublished_cache == state.step->FindPublished_cache))
            &&& !found && !partial_is_left ==> match state.step {
                LifecycleStep::FindFrozen { .. } => next == LifecycleNext::Fail(
                    CliError::FrozenSnapshotMissing,
                ),
                LifecycleStep::FindStale { .. } => state.failure matches Some(e) ==> next
                    == LifecycleNext::Fail(e),
                LifecycleStep::FindPublished { .. } => next matches LifecycleNext::Fail(e)
                    && e is Cache,
                _ => next == refresh,
            }
        }),
{
}

/// A step that failed ends the command with its failure. The one exception is a refresh where
/// stale snapshots are allowed: unless an index was asked for, one is looked for, complete
/// ones first, and the failure is kept.
pub proof fn failures_end_commands(
    purpose: Purpose,
    options: LifecycleOptions,
    state: LifecycleState,
    failure: CliError,
    next: LifecycleNext,
)
    requires
        is_next(purpose, options, state, LifecycleEvent::Failed(failure), next),
    ensures
        next == LifecycleNext::Fail(failure) || next == LifecycleNext::Do(
            LifecycleState {
                step: LifecycleStep::FindStale { slot: CacheCompleteness::Complete },
                failure: Some(failure),
            },
        ),
        next is Do <==> options.allow_stale && state.step is Refresh && (purpose == Purpose::Status
            || purpose == Purpose::Query || purpose == Purpose::Graph),
{
}

/// What was made is used: a prepared candidate at once, unless it is partial and partial ones
/// are not allowed; a published one at once by an index and by a graph, and by what only looks
/// at the cache once it is found there, complete ones first.
pub proof fn made_candidates_are_used(
    purpose: Purpose,
    options: LifecycleOptions,
    state: LifecycleState,
    completeness: CacheCompleteness,
    cache: CacheDisposition,
    next: LifecycleNext,
)
    requires
        is_next(
            purpose,
            options,
            state,
            LifecycleEvent::Made { completeness, cache },
            next,
        ),
    ensures
        state.step is Prepare && completeness == CacheCompleteness::Partial
            && !options.allow_partial ==> next == LifecycleNext::Fail(CliError::PartialNotAllowed),
        state.step is Prepare && (completeness == CacheCompleteness::Complete
            || options.allow_partial) ==> next == (LifecycleNext::Ready {
            freshness: Freshness::Fresh,
            cache: CacheDisposition::Disabled,
        }),
        state.step is Refresh && (purpose == Purpose::Index || purpose == Purpose::Graph) ==> next
            == (LifecycleNext::Ready { freshness: Freshness::Fresh, cache }),
        state.step is Refresh && (purpose == Purpose::Status || purpose == Purpose::Query) ==> next
            == LifecycleNext::Do(
            LifecycleState {
                step: LifecycleStep::FindPublished { slot: CacheCompleteness::Complete, cache },
                failure: None,
            },
        ),
        !(state.step is Prepare) && !(state.step is Refresh) ==> next is Fail,
{
}

/// Once a project is selected, only the options and the purpose decide which cache is
/// opened, and whether. An index is never frozen; a cache is opened for reading exactly where
/// anything else is, for writing only where a cache is wanted, and where it is not, a
/// candidate is prepared without one. A query opens the cache before it reads the clock, all
/// others after it.
pub proof fn caches_are_opened_as_the_options_say(
    purpose: Purpose,
    options: LifecycleOptions,
    state: LifecycleState,
    next: LifecycleNext,
)
    requires
        is_next(purpose, options, state, LifecycleEvent::Done, next),
    ensures
        next is Do || next is Fail,
        next matches LifecycleNext::Do(s) ==> s.failure is None,
        state.step is SelectProject || state.step is OpenFrozen || state.step is ReadClock
            || state.step is OpenWritable <==> next is Do,
        next matches LifecycleNext::Do(s) ==> {
            let frozen = options.frozen && purpose != Purpose::Index;
            let queried = purpose == Purpose::Query;
            &&& s.step is OpenFrozen <==> state.step is SelectProject && frozen
            &&& s.step is FindFrozen <==> state.step is OpenFrozen
            &&& s.step is Prepare <==> state.step is ReadClock && options.no_cache
            &&& s.step is OpenWritable <==> {
                ||| state.step is SelectProject && !frozen && queried && !options.no_cache
                ||| state.step is ReadClock && !queried && !options.no_cache
            }
            &&& s.step is ReadClock <==> {
                ||| state.step is SelectProject && !frozen && (!queried || options.no_cache)
                ||| state.step is OpenWritable && queried
            }
            &&& s.step is FindActive <==> {
                ||| state.step is OpenWritable && purpose == Purpose::Status
                ||| state.step is ReadClock && queried && !options.no_cache
            }
            &&& s.step is LoadPrior <==> state.step is OpenWritable && (purpose == Purpose::Index
                || purpose == Purpose::Graph)
            &&& slot_looked_into(s.step) is Some ==> slot_looked_into(s.step) == Some(
                CacheCompleteness::Complete,
            )
        },
{
}

/// The next step of a run is what follows.
pub open spec fn goes_on(
    purpose: Purpose,
    options: LifecycleOptions,
    states: Seq<LifecycleState>,
    events: Seq<LifecycleEvent>,
    i: int,
) -> bool {
    is_next(purpose, options, states[i], events[i], LifecycleNext::Do(states[i + 1]))
}

/// A run of a lifecycle: every step is answered by an event, and the next step follows.
pub open spec fn is_run(
    purpose: Purpose,
    options: LifecycleOptions,
    states: Seq<LifecycleState>,
    events: Seq<LifecycleEvent>,
    end: LifecycleNext,
) -> bool {
    &&& states.len() > 0
    &&& states.len() == events.len()
    &&& states[0].step is SelectProject && states[0].failure is None
    &&& forall|i: int|
        0 <= i < states.len() - 1 ==> #[trigger] goes_on(purpose, options, states, events, i)
    &&& is_next(purpose, options, states.last(), events.last(), end)
}

/// At this place of the run the sources of a cached snapshot were found current.
pub open spec fn compared_at(
    states: Seq<LifecycleState>,
    events: Seq<LifecycleEvent>,
    i: int,
) -> bool {
    0 <= i < states.len() && states[i].step is CheckSources && events[i] == LifecycleEvent::Found(
        true,
    )
}

/// At this place of the run a candidate was prepared or published.
pub open spec fn made_at(states: Seq<LifecycleState>, events: Seq<LifecycleEvent>, i: int) -> bool {
    0 <= i < states.len() && (states[i].step is Prepare || states[i].step is Refresh)
        && events[i] is Made
}

/// At this place of the run a refresh failed.
pub open spec fn failed_at(
    states: Seq<LifecycleState>,
    events: Seq<LifecycleEvent>,
    i: int,
    failure: CliError,
) -> bool {
    0 <= i < states.len() && states[i].step is Refresh && events[i] == LifecycleEvent::Failed(
        failure,
    )
}

/// The options allow for the step.
spec fn is_due(options: LifecycleOptions, purpose: Purpose, step: LifecycleStep) -> bool {
    let frozen = options.frozen && purpose != Purpose::Index;
    match step {
        LifecycleStep::SelectProject => true,
        LifecycleStep::OpenFrozen | LifecycleStep::FindFrozen { .. } => frozen,
        LifecycleStep::ReadClock => !frozen,
        LifecycleStep::Prepare => !frozen && options.no_cache,
        LifecycleStep::FindStale { .. } => !frozen && !options.no_cache && options.allow_stale,
        _ => !frozen && !options.no_cache,
    }
}

proof fn lemma_one_step(
    purpose: Purpose,
    options: LifecycleOptions,
    before: LifecycleState,
    event: LifecycleEvent,
    s: LifecycleState,
)
    requires
        is_next(purpose, options, before, event, LifecycleNext::Do(s)),
    ensures
        is_due(options, purpose, before.step) ==> is_due(options, purpose, s.step),
        s.step is FindPublished ==> before.step is FindPublished || (before.step is Refresh
            && event is Made),
        s.step is FindStale ==> (before.step is FindStale && s.failure == before.failure) || (
        before.step is Refresh && s.failure is Some && event == LifecycleEvent::Failed(
            s.failure->0,
        )),
{
}

/// What is known of a run when it comes to a step.
#[verifier::opaque]
spec fn came_by(
    options: LifecycleOptions,
    purpose: Purpose,
    states: Seq<LifecycleState>,
    events: Seq<LifecycleEvent>,
    n: int,
) -> bool {
    let s = states[n];
    &&& is_due(options, purpose, s.step)
    &&& s.step is FindPublished ==> exists|i: int| i < n && #[trigger] made_at(states, events, i)
    &&& s.step is FindStale ==> s.failure is Some && exists|i: int|
        i < n && #[trigger] failed_at(states, events, i, s.failure->0)
}

proof fn lemma_came_by(
    purpose: Purpose,
    options: LifecycleOptions,
    states: Seq<LifecycleState>,
    events: Seq<LifecycleEvent>,
    end: LifecycleNext,
    n: int,
)
    requires
        is_run(purpose, options, states, events, end),
        0 <= n < states.len(),
    ensures
        came_by(options, purpose, states, events, n),
    decreases n,
{
    reveal(came_by);
    if n > 0 {
        lemma_came_by(purpose, options, states, events, end, n - 1);
        let m = n - 1;
        let before = states[m];
        let s = states[m + 1];
        assert(goes_on(purpose, options, states, events, m));
        lemma_one_step(purpose, options, before, events[m], s);
        lemma_origin_kept(options, purpose, states, events, m);
    }
}

proof fn lemma_origin_kept(
    options: LifecycleOptions,
    purpose: Purpose,
    states: Seq<LifecycleState>,
    events: Seq<LifecycleEvent>,
    m: int,
)
    requires
        0 <= m < states.len() - 1,
        came_by(options, purpose, states, events, m),
        is_due(options, purpose, states[m + 1].step),
        states[m + 1].step is FindPublished ==> states[m].step is FindPublished || (
        states[m].step is Refresh && events[m] is Made),
        states[m + 1].step is FindStale ==> (states[m].step is FindStale && states[m + 1].failure
            == states[m].failure) || (states[m].step is Refresh && states[m + 1].failure is Some
            && events[m] == LifecycleEvent::Failed(states[m + 1].failure->0)),
    ensures
        came_by(options, purpose, states, events, m + 1),
{
    reveal(came_by);
    let s = states[m + 1];
    if s.step is FindPublished {
        if states[m].step is Refresh {
            assert(made_at(states, events, m));
        } else {
            let i = choose|i: int| i < m && #[trigger] made_at(states, events, i);
            assert(i < m + 1 && made_at(states, events, i));
        }
    }
    if s.step is FindStale {
        if states[m].step is Refresh {
            assert(failed_at(states, events, m, s.failure->0));
        } else {
            let i = choose|i: int| i < m && #[trigger] failed_at(states, events, i, s.failure->0);
            assert(i < m + 1 && failed_at(states, events, i, s.failure->0));
        }
    }
}

/// Over a whole run: a command works on a fresh snapshot only if it compared the sources of
/// that snapshot and found them current, or made it itself; on a stale one only if stale ones
/// are allowed and its refresh failed; on a frozen one exactly if it is frozen. A command that
/// is told to use no cache never takes anything from one, and one that fails for want of a
/// stale snapshot tells the failure of its refresh.
pub proof fn commands_work_on_what_they_are_allowed(
    purpose: Purpose,
    options: LifecycleOptions,
    states: Seq<LifecycleState>,
    events: Seq<LifecycleEvent>,
    end: LifecycleNext,
)
    requires
        is_run(purpose, options, states, events, end),
    ensures
        end matches LifecycleNext::Ready { freshness, cache } ==> {
            &&& freshness == Freshness::Fresh ==> (exists|i: int| #[trigger]
                compared_at(states, events, i)) || (exists|i: int| #[trigger]
                made_at(states, events, i))
            &&& freshness == Freshness::Stale ==> options.allow_stale && exists|
                i: int,
                failure: CliError,
            | #[trigger] failed_at(states, events, i, failure)
            &&& freshness == Freshness::Frozen <==> options.frozen && purpose != Purpose::Index
            &&& options.no_cache && freshness != Freshness::Frozen ==> freshness
                == Freshness::Fresh && cache == CacheDisposition::Disabled
        },
        states.last().step is FindStale && events.last() == LifecycleEvent::Found(false) ==> (
        end matches LifecycleNext::Fail(e) ==> exists|i: int| #[trigger]
            failed_at(states, events, i, e)),
{
    let n = states.len() - 1;
    lemma_came_by(purpose, options, states, events, end, n);
    reveal(came_by);
    let last = states[n];
    if last.step is CheckSources && events[n] == LifecycleEvent::Found(true) {
        assert(compared_at(states, events, n));
    }
    if last.step is Prepare || last.step is Refresh {
        if events[n] is Made {
            assert(made_at(states, events, n));
        }
    }
}

} // verus!
