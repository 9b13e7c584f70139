//! Metadata admission budgets for discovered source candidates.

use vstd::prelude::*;
use vstd::string::*;
use crate::config::ResourceLimits;
use crate::inventory::types::{OmissionReason, OmittedFile, SourceCandidate, SourceDiscovery};
use crate::ordering::{is_stable_sort, reversed, stable_sort};

verus! {

/// What the budgets kept and left out.
pub struct Budgeted {
    pub retained: Seq<SourceCandidate>,
    pub omitted: Seq<OmittedFile>,
    pub total: nat,
}

/// Why the budgets leave a candidate out, if they do.
pub open spec fn budget_reason(b: Budgeted, c: SourceCandidate, limits: ResourceLimits) -> Option<
    OmissionReason,
> {
    if c.language is None {
        None
    } else if c.size_bytes > limits.max_file_bytes {
        Some(OmissionReason::FileTooLarge { limit: limits.max_file_bytes })
    } else if b.retained.len() >= limits.max_files {
        Some(OmissionReason::FileCountLimit { limit: limits.max_files })
    } else if b.total + c.size_bytes > limits.max_total_bytes {
        Some(OmissionReason::TotalBytesLimit { limit: limits.max_total_bytes })
    } else {
        None
    }
}

/// The budgets after one more candidate.
pub open spec fn budget_step(b: Budgeted, c: SourceCandidate, limits: ResourceLimits) -> Budgeted {
    match budget_reason(b, c, limits) {
        Some(reason) => Budgeted {
            omitted: b.omitted.push(OmittedFile::of(c.path, reason)),
            ..b
        },
        None => Budgeted {
            retained: b.retained.push(c),
            omitted: b.omitted,
            total: if c.language is None {
                b.total
            } else {
                b.total + c.size_bytes as nat
            },
        },
    }
}

/// The budgets over all candidates in their order.
pub open spec fn budgeted(candidates: Seq<SourceCandidate>, limits: ResourceLimits) -> Budgeted
    decreases candidates.len(),
{
    if candidates.len() == 0 {
        Budgeted { retained: Seq::empty(), omitted: Seq::empty(), total: 0 }
    } else {
        budget_step(budgeted(candidates.drop_last(), limits), candidates.last(), limits)
    }
}

/// Leaves out what exceeds the budgets, in the order of discovery.
pub fn apply_metadata_budgets(discovery: &mut SourceDiscovery, limits: &ResourceLimits)
    ensures
        final(discovery).candidates@ == budgeted(old(discovery).candidates@, *limits).retained,
        is_stable_sort(
            old(discovery).omitted@ + budgeted(old(discovery).candidates@, *limits).omitted,
            final(discovery).omitted@,
        ),
{
    let mut candidates: Vec<SourceCandidate> = Vec::new();
    std::mem::swap(&mut candidates, &mut discovery.candidates);
    let mut omitted: Vec<OmittedFile> = Vec::new();
    std::mem::swap(&mut omitted, &mut discovery.omitted);
    let ghost all = candidates@;
    let ghost before = omitted@;
    let mut rest = reversed(candidates);
    let mut retained: Vec<SourceCandidate> = Vec::new();
    let mut total: usize = 0;
    let ghost mut done: int = 0;
    proof {
        assert(all.take(0) =~= Seq::<SourceCandidate>::empty());
        assert(before + Seq::<OmittedFile>::empty() =~= before);
        assert(rest@ =~= all.skip(0).reverse());
    }
    while rest.len() > 0
        invariant
            0 <= done <= all.len(),
            rest@ == all.skip(done).reverse(),
            rest@.len() == all.len() - done,
            retained@ == budgeted(all.take(done), *limits).retained,
            omitted@ == before + budgeted(all.take(done), *limits).omitted,
            total == budgeted(all.take(done), *limits).total,
        decreases rest.len(),
    {
        let ghost b = budgeted(all.take(done), *limits);
        let next = rest.pop();
        match next {
            None => {},
            Some(candidate) => {
                proof {
                    assert(candidate == all[done]);
                    assert(all.take(done + 1).drop_last() =~= all.take(done));
                    assert(all.take(done + 1).last() == candidate);
                    assert(rest@ =~= all.skip(done + 1).reverse());
                }
                let reason: Option<OmissionReason> = if candidate.language.is_none() {
                    None
                } else if candidate.size_bytes > limits.max_file_bytes as u64 {
                    Some(OmissionReason::FileTooLarge { limit: limits.max_file_bytes })
                } else if retained.len() >= limits.max_files {
                    Some(OmissionReason::FileCountLimit { limit: limits.max_files })
                } else {
                    let size = candidate.size_bytes as usize;
                    match total.checked_add(size) {
                        Some(sum) => if sum <= limits.max_total_bytes {
                            total = sum;
                            None
                        } else {
                            Some(OmissionReason::TotalBytesLimit { limit: limits.max_total_bytes })
                        },
                        None => Some(
                            OmissionReason::TotalBytesLimit { limit: limits.max_total_bytes },
                        ),
                    }
                };
                assert(reason == budget_reason(b, candidate, *limits));
                match reason {
                    Some(reason) => {
                        omitted.push(OmittedFile::new(candidate.path, reason));
                        assert(omitted@ =~= before + budgeted(all.take(done + 1), *limits).omitted);
                    },
                    None => retained.push(candidate),
                }
                proof {
                    done = done + 1;
                }
            },
        }
    }
    proof {
        assert(all.take(all.len() as int) =~= all);
    }
    discovery.candidates = retained;
    discovery.omitted = stable_sort(omitted);
}

/// The bytes of the candidates that are in a language.
pub open spec fn source_bytes(candidates: Seq<SourceCandidate>) -> nat
    decreases candidates.len(),
{
    if candidates.len() == 0 {
        0
    } else {
        source_bytes(candidates.drop_last()) + if candidates.last().language is None {
            0
        } else {
            candidates.last().size_bytes as nat
        }
    }
}

/// How many candidates are in a language.
pub open spec fn source_count(candidates: Seq<SourceCandidate>) -> nat
    decreases candidates.len(),
{
    if candidates.len() == 0 {
        0
    } else {
        source_count(candidates.drop_last()) + if candidates.last().language is None {
            0nat
        } else {
            1nat
        }
    }
}

proof fn lemma_source_count(candidates: Seq<SourceCandidate>)
    ensures
        source_count(candidates) <= candidates.len(),
    decreases candidates.len(),
{
    if candidates.len() > 0 {
        lemma_source_count(candidates.drop_last());
    }
}

/// No budget is ever exceeded: not the size of a file, not the number of files, not
/// the sum of their sizes.
pub proof fn budgets_are_kept(candidates: Seq<SourceCandidate>, limits: ResourceLimits)
    ensures
        ({
            let b = budgeted(candidates, limits);
            &&& source_bytes(b.retained) <= limits.max_total_bytes
            &&& source_count(b.retained) <= limits.max_files
            &&& forall|i: int|
                0 <= i < b.retained.len() && (#[trigger] b.retained[i]).language is Some
                    ==> b.retained[i].size_bytes <= limits.max_file_bytes
            &&& b.retained.len() + b.omitted.len() == candidates.len()
        }),
    decreases candidates.len(),
{
    lemma_budgets(candidates, limits);
}

proof fn lemma_budgets(candidates: Seq<SourceCandidate>, limits: ResourceLimits)
    ensures
        ({
            let b = budgeted(candidates, limits);
            &&& source_bytes(b.retained) == b.total
            &&& b.total <= limits.max_total_bytes
            &&& source_count(b.retained) <= limits.max_files
            &&& forall|i: int|
                0 <= i < b.retained.len() && (#[trigger] b.retained[i]).language is Some
                    ==> b.retained[i].size_bytes <= limits.max_file_bytes
            &&& b.retained.len() + b.omitted.len() == candidates.len()
        }),
    decreases candidates.len(),
{
    if candidates.len() > 0 {
        let init = candidates.drop_last();
        lemma_budgets(init, limits);
        let b0 = budgeted(init, limits);
        let b1 = budgeted(candidates, limits);
        let c = candidates.last();
        if budget_reason(b0, c, limits) is None {
            assert(b1.retained.drop_last() =~= b0.retained);
            lemma_source_count(b0.retained);
        }
    }
}

} // verus!
