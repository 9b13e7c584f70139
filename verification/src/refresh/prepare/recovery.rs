//! Per-file worker crash recovery.

use vstd::prelude::*;
use vstd::string::*;
use vstd::utf8::*;
use crate::deadline::{
    failure_of, heeds, is_interruption, may_go_on, Cancellation, Deadline,
};
use crate::error::CliError;
use crate::graph::FileFacts;
use crate::inventory::types::InventoryFile;
use crate::text::encode_concat;
use crate::worker::{RequestId, WorkerAttemptFailure, WorkerErrorCode, WorkerFailure};

verus! {

/// The longest detail of an omission, in bytes.
pub const MAX_DETAIL_BYTES: usize = 512;

/// Result of one isolated extraction attempt.
#[derive(Debug)]
pub enum ExtractionOutcome {
    /// Valid facts extracted for the requested file.
    Facts(FileFacts),
    /// A recoverable per-file omission with bounded, source-free detail.
    Omitted { detail: String },
}

/// The detail of a failure before it is bounded.
pub open spec fn full_detail(stage: Seq<char>, error: Seq<char>) -> Seq<char> {
    "stage="@ + stage + " error="@ + error
}

/// `short` is the longest beginning of `full` that fits in `max` bytes.
pub open spec fn is_longest_fit(full: Seq<char>, short: Seq<char>, max: nat) -> bool {
    &&& short.len() <= full.len()
    &&& short == full.take(short.len() as int)
    &&& encode_utf8(short).len() <= max
    &&& short.len() < full.len() ==> encode_utf8(full.take(short.len() as int + 1)).len() > max
}

/// A failure detail, cut at a character boundary where it is too long.
pub fn bounded_detail(stage: &str, error: &str) -> (r: String)
    ensures
        is_longest_fit(full_detail(stage@, error@), r@, MAX_DETAIL_BYTES as nat),
{
    let mut detail = "stage=".to_owned();
    detail.append(stage);
    detail.append(" error=");
    detail.append(error);
    let ghost full = full_detail(stage@, error@);
    let text = detail.as_str();
    if text.as_bytes().len() <= MAX_DETAIL_BYTES {
        assert(full.take(full.len() as int) =~= full);
        return detail;
    }
    // The longest prefix that fits, found by growing it one character at a time.
    let mut size: usize = 0;
    let mut kept: usize = 0;
    let chars = crate::text::chars_of(text);
    assert(full.take(0) =~= Seq::<char>::empty());
    while kept < chars.len()
        invariant
            kept <= chars.len(),
            chars@ == full,
            full == full_detail(stage@, error@),
            size == encode_utf8(full.take(kept as int)).len(),
            size <= MAX_DETAIL_BYTES,
            encode_utf8(full).len() > MAX_DETAIL_BYTES,
            text@ == full,
        decreases chars.len() - kept,
    {
        let width = char_width(chars[kept]);
        proof {
            assert(full.take(kept as int + 1) =~= full.take(kept as int) + seq![full[kept as int]]);
            encode_concat(full.take(kept as int), seq![full[kept as int]]);
        }
        if size + width > MAX_DETAIL_BYTES {
            let short = text.substring_char(0, kept);
            assert(short@ =~= full.take(kept as int));
            return short.to_owned();
        }
        size += width;
        kept += 1;
    }
    assert(full.take(full.len() as int) =~= full);
    detail
}

/// The number of bytes that encode a character.
fn char_width(c: char) -> (r: usize)
    ensures
        r == encode_utf8(seq![c]).len(),
        1 <= r <= 4,
{
    proof {
        reveal_with_fuel(encode_utf8, 2);
        assert(seq![c].drop_first() =~= Seq::<char>::empty());
        assert(encode_utf8(seq![c]) =~= encode_scalar(c as u32));
        char_is_scalar(c);
    }
    let v = c as u32;
    if v <= 0x7f {
        1
    } else if v <= 0x7ff {
        2
    } else if v <= 0xffff {
        3
    } else {
        4
    }
}

/// The detail of a file that crashed every worker it was given to.
pub open spec fn crash_detail() -> Seq<char> {
    "stage=worker-crash error=worker repeatedly crashed"@
}

/// What a failure of a worker that survived means for the file.
pub open spec fn is_omission_of(
    failure: WorkerAttemptFailure,
    r: Result<ExtractionOutcome, CliError>,
) -> bool {
    match failure {
        WorkerAttemptFailure::Remote { code: WorkerErrorCode::Extraction, message } => r matches Ok(
            ExtractionOutcome::Omitted { detail },
        ) && is_longest_fit(
            full_detail("worker-extraction"@, message@),
            detail@,
            MAX_DETAIL_BYTES as nat,
        ),
        WorkerAttemptFailure::InvalidFacts { message } => r matches Ok(
            ExtractionOutcome::Omitted { detail },
        ) && is_longest_fit(
            full_detail("worker-validation"@, message@),
            detail@,
            MAX_DETAIL_BYTES as nat,
        ),
        _ => r == Err::<ExtractionOutcome, CliError>(CliError::Worker(failure.plain())),
    }
}

/// Turns the failure of a worker that survived into an omission where it concerns
/// the file alone; any other failure stays fatal.
pub fn detailed_omission(failure: WorkerAttemptFailure) -> (r: Result<ExtractionOutcome, CliError>)
    ensures
        is_omission_of(failure, r),
{
    match failure {
        WorkerAttemptFailure::Remote { code, message } => {
            if code == WorkerErrorCode::Extraction {
                Ok(
                    ExtractionOutcome::Omitted {
                        detail: bounded_detail("worker-extraction", message.as_str()),
                    },
                )
            } else {
                Err(CliError::Worker(WorkerFailure::Remote(code)))
            }
        },
        WorkerAttemptFailure::InvalidFacts { message } => Ok(
            ExtractionOutcome::Omitted {
                detail: bounded_detail("worker-validation", message.as_str()),
            },
        ),
        WorkerAttemptFailure::Failure(failure) => Err(CliError::Worker(failure)),
    }
}

/// Tells whether a fresh worker is needed.
pub fn is_worker_death(failure: &WorkerAttemptFailure) -> (r: bool)
    ensures
        r == failure.is_death(),
{
    match failure {
        WorkerAttemptFailure::Failure(WorkerFailure::Transport) => true,
        WorkerAttemptFailure::Failure(WorkerFailure::Exit) => true,
        _ => false,
    }
}

/// What follows one attempt at a file.
#[derive(Debug)]
pub enum RecoveryStep {
    /// The file is done.
    Finished(Result<ExtractionOutcome, CliError>),
    /// The worker died: replace it and try the file once more.
    RespawnAndRetry,
    /// The worker died again: replace it and leave the file out.
    RespawnAndOmit,
}

/// The step that follows an attempt; `retry` tells whether it was the second.
pub open spec fn is_recovery_step(
    retry: bool,
    attempt: Result<FileFacts, WorkerAttemptFailure>,
    step: RecoveryStep,
) -> bool {
    match attempt {
        Ok(facts) => step == RecoveryStep::Finished(Ok(ExtractionOutcome::Facts(facts))),
        Err(failure) => if failure.is_death() {
            if retry {
                step == RecoveryStep::RespawnAndOmit
            } else {
                step == RecoveryStep::RespawnAndRetry
            }
        } else {
            step matches RecoveryStep::Finished(r) && is_omission_of(failure, r)
        },
    }
}

/// Decides what follows an attempt: facts and failures of a worker that survived
/// end the file; a first death is retried once, a second leaves the file out.
pub fn recovery_step(
    retry: bool,
    attempt: Result<FileFacts, WorkerAttemptFailure>,
) -> (step: RecoveryStep)
    ensures
        is_recovery_step(retry, attempt, step),
{
    match attempt {
        Ok(facts) => RecoveryStep::Finished(Ok(ExtractionOutcome::Facts(facts))),
        Err(failure) => {
            if is_worker_death(&failure) {
                if retry {
                    RecoveryStep::RespawnAndOmit
                } else {
                    RecoveryStep::RespawnAndRetry
                }
            } else {
                RecoveryStep::Finished(detailed_omission(failure))
            }
        },
    }
}

/// A one-file worker with respawn, abstracting the persistent subprocess so that
/// the crash-recovery policy can be driven without one.
pub trait RecoverableWorker: Sized {
    /// The worker may answer this about a file, and be left in the state after: anything,
    /// unless the kind of worker says more.
    open spec fn attempted(
        before: Self,
        file: &InventoryFile,
        request_id: RequestId,
        answer: Result<FileFacts, WorkerAttemptFailure>,
        after: Self,
    ) -> bool {
        true
    }

    /// The replacement of a worker may fail this way, or not at all, and leave the state
    /// after.
    open spec fn respawned(before: Self, failure: Option<CliError>, after: Self) -> bool {
        true
    }

    /// Attempts one file; a worker-death failure signals that the process must be
    /// replaced before the next attempt.
    fn attempt(&mut self, file: &InventoryFile, request_id: RequestId) -> (r: Result<
        FileFacts,
        WorkerAttemptFailure,
    >)
        ensures
            Self::attempted(*old(self), file, request_id, r, *final(self)),
    ;

    /// Replaces the underlying worker with a fresh one; a spawn failure is fatal.
    fn respawn(&mut self) -> (r: Result<(), CliError>)
        ensures
            Self::respawned(*old(self), failure_of(r), *final(self)),
    ;
}

/// The worker answers in a way that ends the file with the result: facts are given back,
/// and the failure of a worker that survived is what it means for the file.
pub open spec fn finishes<W: RecoverableWorker>(
    before: W,
    file: &InventoryFile,
    request_id: RequestId,
    after: W,
    r: Result<ExtractionOutcome, CliError>,
) -> bool {
    exists|answer: Result<FileFacts, WorkerAttemptFailure>| #[trigger]
        W::attempted(before, file, request_id, answer, after) && match answer {
            Ok(facts) => r == Ok::<ExtractionOutcome, CliError>(ExtractionOutcome::Facts(facts)),
            Err(failure) => !failure.is_death() && is_omission_of(failure, r),
        }
}

/// The worker dies on the file.
pub open spec fn dies<W: RecoverableWorker>(
    before: W,
    file: &InventoryFile,
    request_id: RequestId,
    after: W,
) -> bool {
    exists|failure: WorkerAttemptFailure| #[trigger]
        failure.is_death() && W::attempted(before, file, request_id, Err(failure), after)
}

/// The worker dies on the file and is replaced.
pub open spec fn dies_and_is_replaced<W: RecoverableWorker>(
    before: W,
    file: &InventoryFile,
    request_id: RequestId,
    after: W,
) -> bool {
    exists|dead: W| #[trigger]
        dies(before, file, request_id, dead) && W::respawned(dead, None, after)
}

/// The worker dies on the file and cannot be replaced.
pub open spec fn dies_for_good<W: RecoverableWorker>(
    before: W,
    file: &InventoryFile,
    request_id: RequestId,
    after: W,
    e: CliError,
) -> bool {
    exists|dead: W| #[trigger]
        dies(before, file, request_id, dead) && W::respawned(dead, Some(e), after)
}

/// The file is done at the first attempt, or, after one death and one replacement, at
/// the second; after two deaths and two replacements it is left out. A replacement that
/// fails ends the file with its failure. There is no third attempt.
pub open spec fn is_recovery<W: RecoverableWorker>(
    before: W,
    file: &InventoryFile,
    request_id: RequestId,
    after: W,
    r: Result<ExtractionOutcome, CliError>,
) -> bool {
    ||| finishes(before, file, request_id, after, r)
    ||| r matches Err(e) && dies_for_good(before, file, request_id, after, e)
    ||| exists|fresh: W| #[trigger]
        dies_and_is_replaced(before, file, request_id, fresh) && {
            ||| finishes(fresh, file, request_id, after, r)
            ||| r matches Err(e) && dies_for_good(fresh, file, request_id, after, e)
            ||| dies_and_is_replaced(fresh, file, request_id, after) && is_crash_omission(r)
        }
}

/// The file is left out because no worker survived it.
pub open spec fn is_crash_omission(r: Result<ExtractionOutcome, CliError>) -> bool {
    r matches Ok(ExtractionOutcome::Omitted { detail }) && detail@ == crash_detail()
}

/// Where an interruption can leave the worker: untouched, dead, or dead a second time.
pub open spec fn is_cut_short<W: RecoverableWorker>(
    before: W,
    file: &InventoryFile,
    request_id: RequestId,
    after: W,
) -> bool {
    ||| after == before
    ||| dies(before, file, request_id, after)
    ||| exists|fresh: W| #[trigger]
        dies_and_is_replaced(before, file, request_id, fresh) && dies(
            fresh,
            file,
            request_id,
            after,
        )
}

/// Whatever the worker did, an omission carries a bounded detail.
pub open spec fn is_bounded_outcome(r: Result<ExtractionOutcome, CliError>) -> bool {
    r matches Ok(ExtractionOutcome::Omitted { detail }) ==> encode_utf8(detail@).len()
        <= MAX_DETAIL_BYTES
}

/// The crash-recovery policy for one file. Deadline and cancellation breaches stay
/// fatal; a first worker death triggers one respawn and retry; a retry that also
/// dies leaves the file out and spawns a fresh worker for subsequent files.
pub fn extract_with_recovery<W: RecoverableWorker, C: Cancellation + ?Sized>(
    worker: &mut W,
    file: &InventoryFile,
    request_id: RequestId,
    deadline: &Deadline,
    cancellation: &C,
) -> (r: Result<ExtractionOutcome, CliError>)
    ensures
        is_recovery(*old(worker), file, request_id, *final(worker), r) || (r matches Err(e)
            && is_interruption(e, *deadline, cancellation) && is_cut_short(
            *old(worker),
            file,
            request_id,
            *final(worker),
        )),
        is_bounded_outcome(r),
        heeds(*deadline, cancellation, failure_of(r)),
        may_go_on(*deadline, cancellation) || *final(worker) == *old(worker),
{
    let ghost before = *worker;
    match deadline.check(cancellation) {
        Ok(()) => {},
        Err(e) => {
            return Err(e);
        },
    }
    let first = worker.attempt(file, request_id);
    let ghost answer = first;
    let ghost dead = *worker;
    assert(W::attempted(before, file, request_id, answer, dead));
    match recovery_step(false, first) {
        RecoveryStep::Finished(r) => {
            return r;
        },
        _ => {},
    }
    proof {
        let failure = answer->Err_0;
        assert(failure.is_death() && W::attempted(before, file, request_id, Err(failure), dead));
        assert(dies(before, file, request_id, dead));
    }
    match deadline.check(cancellation) {
        Ok(()) => {},
        Err(e) => {
            return Err(e);
        },
    }
    let replaced = worker.respawn();
    let ghost fresh = *worker;
    assert(W::respawned(dead, failure_of(replaced), fresh));
    match replaced {
        Ok(()) => {},
        Err(e) => {
            return Err(e);
        },
    }
    assert(dies_and_is_replaced(before, file, request_id, fresh));
    let second = worker.attempt(file, request_id);
    let ghost answer = second;
    let ghost dead = *worker;
    assert(W::attempted(fresh, file, request_id, answer, dead));
    match recovery_step(true, second) {
        RecoveryStep::Finished(r) => {
            return r;
        },
        _ => {},
    }
    proof {
        let failure = answer->Err_0;
        assert(failure.is_death() && W::attempted(fresh, file, request_id, Err(failure), dead));
        assert(dies(fresh, file, request_id, dead));
    }
    match deadline.check(cancellation) {
        Ok(()) => {},
        Err(e) => {
            return Err(e);
        },
    }
    let replaced = worker.respawn();
    assert(W::respawned(dead, failure_of(replaced), *worker));
    match replaced {
        Ok(()) => {},
        Err(e) => {
            return Err(e);
        },
    }
    assert(dies_and_is_replaced(fresh, file, request_id, *worker));
    let detail = "stage=worker-crash error=worker repeatedly crashed".to_owned();
    proof {
        reveal_strlit("stage=worker-crash error=worker repeatedly crashed");
        assert(is_ascii_chars(crash_detail()));
        is_ascii_chars_encode_utf8(crash_detail());
    }
    Ok(ExtractionOutcome::Omitted { detail })
}

} // verus!
