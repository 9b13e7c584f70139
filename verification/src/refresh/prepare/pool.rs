//! Extraction sessions, their work items and the registry of live workers.

use vstd::prelude::*;
use vstd::set_lib::lemma_subset_equality;
use crate::deadline::{Cancellation, Deadline};
use crate::error::CliError;
use crate::graph::FileFacts;
use crate::inventory::types::InventoryFile;
use crate::ordering::{
    is_stable_sort, key_le, key_lt, key_order_is_total, stable_sort, strict_orders_are_determined,
    strictly_sorted_by_key, Keyed,
};
use crate::refresh::prepare::recovery::ExtractionOutcome;
use crate::worker::RequestId;

verus! {

/// The kill handles of the live workers, one slot for each pool thread.
#[derive(Debug)]
pub struct WorkerRegistry<H> {
    pub slots: Vec<Option<H>>,
}

/// One pool thread's slot in the registry of live workers.
#[derive(Debug, Clone, Copy, PartialEq, Eq)]
pub struct WorkerSlot {
    pub index: usize,
}

impl<H> WorkerRegistry<H> {
    /// A registry of empty slots.
    pub fn new(size: usize) -> (r: Self)
        ensures
            r.slots@.len() == size,
            forall|i: int| 0 <= i < size ==> (#[trigger] r.slots@[i]) is None,
    {
        let mut slots: Vec<Option<H>> = Vec::new();
        while slots.len() < size
            invariant
                slots@.len() <= size,
                forall|i: int| 0 <= i < slots@.len() ==> (#[trigger] slots@[i]) is None,
            decreases size - slots.len(),
        {
            slots.push(None);
        }
        WorkerRegistry { slots }
    }
}

impl WorkerSlot {
    /// Publishes the current worker's kill handle for the monitor to use. A slot
    /// that the registry does not have is left alone.
    pub fn set<H>(&self, registry: &mut WorkerRegistry<H>, handle: H)
        ensures
            final(registry).slots@ == if self.index < old(registry).slots@.len() {
                old(registry).slots@.update(self.index as int, Some(handle))
            } else {
                old(registry).slots@
            },
    {
        if self.index < registry.slots.len() {
            registry.slots.set(self.index, Some(handle));
        }
    }

    /// Clears the slot; the monitor will no longer target this thread's worker.
    pub fn clear<H>(&self, registry: &mut WorkerRegistry<H>)
        ensures
            final(registry).slots@ == if self.index < old(registry).slots@.len() {
                old(registry).slots@.update(self.index as int, None)
            } else {
                old(registry).slots@
            },
    {
        if self.index < registry.slots.len() {
            registry.slots.set(self.index, None);
        }
    }
}

/// A slot that is set and then cleared is empty, and no other slot is touched by
/// either.
pub proof fn slots_are_independent<H>(slots: Seq<Option<H>>, i: int, j: int, handle: H)
    requires
        0 <= i < slots.len(),
        0 <= j < slots.len(),
    ensures
        slots.update(i, Some(handle)).update(i, None)[i] is None,
        i != j ==> slots.update(i, Some(handle))[j] == slots[j],
        i != j ==> slots.update(i, None)[j] == slots[j],
{
}

/// Facts, or the failure to get any, as an outcome.
pub open spec fn as_outcome(r: Result<FileFacts, CliError>) -> Result<ExtractionOutcome, CliError> {
    match r {
        Ok(facts) => Ok(ExtractionOutcome::Facts(facts)),
        Err(e) => Err(e),
    }
}

/// A per-thread extraction session. Each extraction services exactly one file and
/// owns its own crash recovery: a repeatable single-file crash degrades to a
/// per-file omission, while genuine infrastructure failures stay fatal.
pub trait ExtractSession: Sized {
    /// What a session of this kind may give for a file under a deadline and a cancellation
    /// source: anything, unless the kind says more.
    open spec fn may_give<C: Cancellation + ?Sized>(
        file: &InventoryFile,
        request_id: RequestId,
        deadline: &Deadline,
        cancellation: &C,
        outcome: Result<ExtractionOutcome, CliError>,
    ) -> bool {
        true
    }

    /// Extracts the facts of one file.
    fn extract<C: Cancellation + ?Sized>(
        &mut self,
        file: &InventoryFile,
        request_id: RequestId,
        deadline: &Deadline,
        cancellation: &C,
    ) -> (r: Result<FileFacts, CliError>)
        ensures
            Self::may_give(file, request_id, deadline, cancellation, as_outcome(r)),
    ;

    /// Provides internal omission detail when available. The default knows only
    /// facts and failures.
    fn extract_outcome<C: Cancellation + ?Sized>(
        &mut self,
        file: &InventoryFile,
        request_id: RequestId,
        deadline: &Deadline,
        cancellation: &C,
    ) -> (r: Result<ExtractionOutcome, CliError>)
        ensures
            Self::may_give(file, request_id, deadline, cancellation, r),
    {
        match self.extract(file, request_id, deadline, cancellation) {
            Ok(facts) => Ok(ExtractionOutcome::Facts(facts)),
            Err(e) => Err(e),
        }
    }
}

/// Produces a reusable extraction session for one pool thread.
pub trait FactsExtractor: Sync {
    /// A reusable per-thread extraction context.
    type Session: ExtractSession;

    /// The failures that the creation of a session may end in.
    open spec fn may_not_start(&self, failure: CliError) -> bool {
        true
    }

    /// Creates a session that publishes its worker's kill handle into `slot`.
    fn session(&self, slot: WorkerSlot) -> (r: Result<Self::Session, CliError>)
        ensures
            r matches Err(e) ==> self.may_not_start(e),
    ;
}

/// One file to extract: its position in the plan and its request.
pub struct ExtractWorkItem<'a> {
    pub index: usize,
    pub file: &'a InventoryFile,
    pub request_id: RequestId,
}

/// The outcome of one work item, by its position in the plan.
#[derive(Debug)]
pub struct IndexedOutcome {
    pub index: usize,
    pub outcome: Result<ExtractionOutcome, CliError>,
}

impl Keyed for IndexedOutcome {
    open spec fn key(&self) -> Seq<u64> {
        seq![self.index as u64]
    }

    fn sort_key(&self) -> (k: Vec<u64>) {
        let mut k: Vec<u64> = Vec::new();
        k.push(self.index as u64);
        assert(k@ =~= self.key());
        k
    }
}

/// Puts outcomes that came back in any order into plan order, so that the outcome
/// and its ordering are those of a serial run.
pub fn ordered_outcomes(outcomes: Vec<IndexedOutcome>) -> (r: Vec<IndexedOutcome>)
    ensures
        is_stable_sort(outcomes@, r@),
{
    stable_sort(outcomes)
}

/// A session that was asked for in the slot may fail to start in this way.
pub open spec fn may_fail_to_start<E: FactsExtractor>(
    extractor: &E,
    slot: WorkerSlot,
    failure: CliError,
) -> bool {
    &&& extractor.may_not_start(failure)
    &&& call_ensures(E::session, (extractor, slot), Err::<E::Session, CliError>(failure))
}

/// The outcome is the item's own: what a session may give for its file under the deadline
/// and the cancellation source, or the failure to start one in the slot.
pub open spec fn may_result<E: FactsExtractor, C: Cancellation + ?Sized>(
    extractor: &E,
    slot: WorkerSlot,
    deadline: &Deadline,
    cancellation: &C,
    item: ExtractWorkItem<'_>,
    result: IndexedOutcome,
) -> bool {
    &&& result.index == item.index
    &&& {
        ||| E::Session::may_give(
            item.file,
            item.request_id,
            deadline,
            cancellation,
            result.outcome,
        )
        ||| result.outcome matches Err(e) && may_fail_to_start(extractor, slot, e)
    }
}

/// Extracts one work item in the session of its thread, which is created in the thread's
/// slot where there is none yet. A session that cannot even be created is a failure of the
/// file it was wanted for.
pub fn extract_item<E: FactsExtractor, C: Cancellation + ?Sized>(
    extractor: &E,
    session: Option<E::Session>,
    item: &ExtractWorkItem<'_>,
    deadline: &Deadline,
    cancellation: &C,
    slot: WorkerSlot,
) -> (r: (IndexedOutcome, Option<E::Session>))
    ensures
        may_result(extractor, slot, deadline, cancellation, *item, r.0),
        session is Some ==> r.1 is Some,
        session is None ==> exists|made: Result<E::Session, CliError>| #[trigger]
            call_ensures(E::session, (extractor, slot), made) && (made is Ok <==> r.1 is Some)
                && (made matches Err(e) ==> r.0.outcome == Err::<ExtractionOutcome, CliError>(e)),
        r.1 is Some ==> E::Session::may_give(
            item.file,
            item.request_id,
            deadline,
            cancellation,
            r.0.outcome,
        ),
        r.1 is None ==> (r.0.outcome matches Err(e) && may_fail_to_start(extractor, slot, e)),
{
    let active = match session {
        Some(active) => Ok(active),
        None => {
            let made = extractor.session(slot);
            assert(call_ensures(E::session, (extractor, slot), made));
            made
        },
    };
    match active {
        Ok(mut active) => {
            let outcome = active.extract_outcome(
                item.file,
                item.request_id,
                deadline,
                cancellation,
            );
            (IndexedOutcome { index: item.index, outcome }, Some(active))
        },
        Err(e) => (IndexedOutcome { index: item.index, outcome: Err(e) }, None),
    }
}

/// Runs the work items one after the other in one session.
pub fn run_pool_thread<E: FactsExtractor, C: Cancellation + ?Sized>(
    extractor: &E,
    work: &Vec<ExtractWorkItem<'_>>,
    deadline: &Deadline,
    cancellation: &C,
    slot: WorkerSlot,
) -> (r: Vec<IndexedOutcome>)
    ensures
        r@.len() == work@.len(),
        forall|i: int|
            0 <= i < r@.len() ==> may_result(
                extractor,
                slot,
                deadline,
                cancellation,
                work@[i],
                #[trigger] r@[i],
            ),
        work@.len() > 0 ==> exists|made: Result<E::Session, CliError>| #[trigger]
            call_ensures(E::session, (extractor, slot), made) && (made matches Err(e)
                ==> r@[0].outcome == Err::<ExtractionOutcome, CliError>(e)),
{
    let mut session: Option<E::Session> = None;
    let mut results: Vec<IndexedOutcome> = Vec::new();
    let mut next: usize = 0;
    while next < work.len()
        invariant
            next <= work.len(),
            results@.len() == next,
            forall|i: int|
                0 <= i < next ==> may_result(
                    extractor,
                    slot,
                    deadline,
                    cancellation,
                    work@[i],
                    #[trigger] results@[i],
                ),
            next == 0 ==> session is None,
            next > 0 ==> exists|made: Result<E::Session, CliError>| #[trigger]
                call_ensures(E::session, (extractor, slot), made) && (made matches Err(e)
                    ==> results@[0].outcome == Err::<ExtractionOutcome, CliError>(e)),
        decreases work.len() - next,
    {
        let (result, kept) = extract_item(
            extractor,
            session,
            &work[next],
            deadline,
            cancellation,
            slot,
        );
        results.push(result);
        session = kept;
        next += 1;
    }
    results
}

/// What the work items give one after the other, where each is answered by what it is.
pub open spec fn answered<'a>(
    work: Seq<ExtractWorkItem<'a>>,
    answer: spec_fn(ExtractWorkItem<'a>) -> Result<ExtractionOutcome, CliError>,
) -> Seq<IndexedOutcome> {
    Seq::new(
        work.len(),
        |i: int| IndexedOutcome { index: work[i].index, outcome: answer(work[i]) },
    )
}

/// The outcome is that of some work item, extracted in some slot.
pub open spec fn answers_one<E: FactsExtractor, C: Cancellation + ?Sized>(
    extractor: &E,
    deadline: &Deadline,
    cancellation: &C,
    work: Seq<ExtractWorkItem<'_>>,
    result: IndexedOutcome,
) -> bool {
    exists|j: int, slot: WorkerSlot|
        0 <= j < work.len() && #[trigger] may_result(
            extractor,
            slot,
            deadline,
            cancellation,
            work[j],
            result,
        )
}

/// No two work items have the same place in the plan.
pub open spec fn have_own_places(work: Seq<ExtractWorkItem<'_>>) -> bool {
    forall|i: int, j: int|
        0 <= i < j < work.len() ==> (#[trigger] work[i]).index != (#[trigger] work[j]).index
}

/// The work items stand in plan order.
pub open spec fn in_plan_order(work: Seq<ExtractWorkItem<'_>>) -> bool {
    forall|i: int, j: int|
        0 <= i < j < work.len() ==> (#[trigger] work[i]).index < (#[trigger] work[j]).index
}

/// Pooled extraction equals a serial run: where every item is answered by what it is,
/// and each has its outcome, then whichever threads took the items and in whatever order
/// the outcomes came back, in plan order they are those of extracting the items one after
/// another. Items that already stand in plan order keep their order, and no work gives
/// nothing.
pub proof fn pooled_extraction_is_serial<'a, E: FactsExtractor, C: Cancellation + ?Sized>(
    extractor: &E,
    deadline: &Deadline,
    cancellation: &C,
    work: Seq<ExtractWorkItem<'a>>,
    answer: spec_fn(ExtractWorkItem<'a>) -> Result<ExtractionOutcome, CliError>,
    outcomes: Seq<IndexedOutcome>,
    sorted: Seq<IndexedOutcome>,
    serial: Seq<IndexedOutcome>,
)
    requires
        have_own_places(work),
        forall|slot: WorkerSlot, item: ExtractWorkItem<'a>, result: IndexedOutcome| #[trigger]
            may_result(extractor, slot, deadline, cancellation, item, result)
                ==> result.outcome == answer(item),
        outcomes.len() == work.len(),
        forall|i: int|
            0 <= i < outcomes.len() ==> answers_one(
                extractor,
                deadline,
                cancellation,
                work,
                #[trigger] outcomes[i],
            ),
        forall|i: int, j: int|
            0 <= i < j < outcomes.len() ==> (#[trigger] outcomes[i]).index != (
            #[trigger] outcomes[j]).index,
        is_stable_sort(outcomes, sorted),
        is_stable_sort(answered(work, answer), serial),
    ensures
        sorted == serial,
        in_plan_order(work) ==> sorted == answered(work, answer),
        work.len() == 0 ==> sorted.len() == 0,
{
    let given = answered(work, answer);
    assert(given.no_duplicates()) by {
        assert forall|i: int, j: int|
            0 <= i < given.len() && 0 <= j < given.len() && i != j implies given[i]
            != given[j] by {
            if i < j {
                assert(work[i].index != work[j].index);
            } else {
                assert(work[j].index != work[i].index);
            }
        }
    }
    assert(outcomes.no_duplicates());
    assert forall|x: IndexedOutcome| outcomes.contains(x) implies given.contains(x) by {
        let i = choose|i: int| 0 <= i < outcomes.len() && outcomes[i] == x;
        assert(answers_one(extractor, deadline, cancellation, work, outcomes[i]));
        let (j, slot) = choose|j: int, slot: WorkerSlot|
            0 <= j < work.len() && #[trigger] may_result(
                extractor,
                slot,
                deadline,
                cancellation,
                work[j],
                outcomes[i],
            );
        assert(given[j] == x);
    }
    outcomes.unique_seq_to_set();
    given.unique_seq_to_set();
    assert(outcomes.to_set().subset_of(given.to_set()));
    lemma_subset_equality(outcomes.to_set(), given.to_set());
    assert forall|x: IndexedOutcome| #[trigger] outcomes.contains(x) == given.contains(x) by {
        assert(outcomes.contains(x) <==> outcomes.to_set().contains(x));
        assert(given.contains(x) <==> given.to_set().contains(x));
    }
    lemma_sorts_strictly(outcomes, sorted);
    lemma_sorts_strictly(given, serial);
    assert forall|x: IndexedOutcome| #[trigger] sorted.contains(x) == serial.contains(x) by {
        assert(outcomes.contains(x) == given.contains(x));
    }
    strict_orders_are_determined(sorted, serial);
    if in_plan_order(work) {
        assert forall|i: int, j: int| 0 <= i < j < given.len() implies key_lt(
            (#[trigger] given[i]).key(),
            (#[trigger] given[j]).key(),
        ) by {
            assert(work[i].index < work[j].index);
            lemma_index_keys(given[i], given[j]);
        }
        strict_orders_are_determined(serial, given);
    }
}

/// Outcomes of different places are sorted strictly, and are the same after sorting.
proof fn lemma_sorts_strictly(outcomes: Seq<IndexedOutcome>, sorted: Seq<IndexedOutcome>)
    requires
        forall|i: int, j: int|
            0 <= i < j < outcomes.len() ==> (#[trigger] outcomes[i]).index != (
            #[trigger] outcomes[j]).index,
        is_stable_sort(outcomes, sorted),
    ensures
        sorted.len() == outcomes.len(),
        strictly_sorted_by_key(sorted),
        forall|x: IndexedOutcome| #[trigger] sorted.contains(x) <==> outcomes.contains(x),
{
    assert(outcomes.no_duplicates());
    outcomes.to_multiset_ensures();
    sorted.to_multiset_ensures();
    outcomes.lemma_multiset_has_no_duplicates();
    sorted.lemma_multiset_has_no_duplicates_conv();
    assert forall|x: IndexedOutcome| #[trigger] sorted.contains(x) <==> outcomes.contains(x) by {
        assert(sorted.contains(x) <==> sorted.to_multiset().count(x) > 0);
        assert(outcomes.contains(x) <==> outcomes.to_multiset().count(x) > 0);
    }
    assert forall|i: int, j: int| 0 <= i < j < sorted.len() implies key_lt(
        (#[trigger] sorted[i]).key(),
        (#[trigger] sorted[j]).key(),
    ) by {
        assert(sorted.contains(sorted[i]) && sorted.contains(sorted[j]));
        let m = choose|m: int| 0 <= m < outcomes.len() && outcomes[m] == sorted[i];
        let n = choose|n: int| 0 <= n < outcomes.len() && outcomes[n] == sorted[j];
        assert(m != n);
        assert(outcomes[m].index != outcomes[n].index) by {
            if m < n {
                assert(outcomes[m].index != outcomes[n].index);
            } else {
                assert(outcomes[n].index != outcomes[m].index);
            }
        }
        assert(key_le(sorted[i].key(), sorted[j].key()));
        if sorted[j].index < sorted[i].index {
            lemma_index_keys(sorted[j], sorted[i]);
            key_order_is_total(sorted[i].key(), sorted[j].key());
        } else {
            lemma_index_keys(sorted[i], sorted[j]);
        }
    }
}

proof fn lemma_index_keys(a: IndexedOutcome, b: IndexedOutcome)
    requires
        a.index < b.index,
    ensures
        key_lt(a.key(), b.key()),
{
    reveal_with_fuel(key_lt, 2);
}

} // verus!
