//! Bounded reads of candidates, and the inventory that is built from them. Files are
//! opened and read by the caller; what is asked of them, and what the answers mean, is
//! decided here.

use vstd::prelude::*;
use vstd::string::*;
use vstd::utf8::*;
use crate::cache::fingerprint::{append_bytes, blake3_digest, blake3_of};
use crate::cache::location::{hex, hex_text};
use crate::config::ResourceLimits;
use crate::deadline::{failure_of, heeds, is_interruption, Cancellation, Deadline};
use crate::error::CliError;
use crate::inventory::types::{
    InventoryCompleteness, InventoryFile, InventorySummary, MaterializedCandidate, MtimeHint,
    OmissionImpact, OmissionReason, OmittedFile, SourceCandidate, SourceDiscovery, SourceInventory,
    StableIdentity, StableIoErrorKind,
};
use crate::ordering::{is_stable_sort, stable_sort};
use crate::project::path::{copied_bytes, text_from_utf8, ProjectPath};
use crate::refresh::plan::{classification_omission, classification_reason};
use crate::text_map::{strictly_ascending, TextMap};

verus! {

/// What tells one state of a file from another.
#[derive(Debug, Clone, Copy, PartialEq, Eq, Structural)]
pub struct Fingerprint {
    pub length: u64,
    pub mtime: Option<MtimeHint>,
    pub identity: StableIdentity,
}

/// What the metadata of a path or of an open file say.
#[derive(Debug, Clone, Copy, PartialEq, Eq, Structural)]
pub struct FileStat {
    pub is_regular: bool,
    pub fingerprint: Fingerprint,
}

/// Why a file could not be read.
#[derive(Debug, Clone, Copy, PartialEq, Eq, Structural)]
pub enum ReadFailure {
    TooLarge,
    Changed,
    Io(StableIoErrorKind),
}

/// What is asked of a file next.
#[derive(Debug, Clone, Copy, PartialEq, Eq, Structural)]
pub enum ReadQuestion {
    /// The metadata of the path, a link not followed.
    StatPath,
    /// Opening the file, and the metadata of the open file.
    Open,
    /// At most this many bytes more.
    Read { at_most: usize },
    /// The metadata of the open file.
    StatHandle,
}

/// A stage of a bounded read.
#[derive(Debug, Clone, Copy, PartialEq, Eq, Structural)]
pub enum ReadStage {
    PathBefore,
    HandleBefore,
    Reading,
    HandleAfter,
    PathAfter { handle: Fingerprint },
}

/// How far a bounded read has come.
#[derive(Debug, Clone, PartialEq, Eq)]
pub struct BoundedRead {
    pub stage: ReadStage,
    pub limit: usize,
    pub discovered: Fingerprint,
    pub bytes: Vec<u8>,
}

/// What was answered. Only what was asked for is read.
#[derive(Debug)]
pub struct ReadAnswer {
    pub stat: Result<FileStat, StableIoErrorKind>,
    pub chunk: Result<Vec<u8>, StableIoErrorKind>,
}

/// What follows from an answer.
#[derive(Debug)]
pub enum ReadStep {
    Ask(BoundedRead),
    Read(Vec<u8>, Fingerprint),
    Failed(ReadFailure),
}

/// Largest piece that is read at once.
pub const CHUNK_BYTES: usize = 8192;

impl BoundedRead {
    /// What was read is never more than the limit and one byte.
    pub open spec fn within(self) -> bool {
        self.bytes@.len() <= self.limit + 1
    }
}

/// The fingerprint that a discovery took of a file.
pub open spec fn discovered_fingerprint(c: SourceCandidate) -> Fingerprint {
    Fingerprint { length: c.size_bytes, mtime: c.mtime, identity: c.identity }
}

/// Begins a read of a candidate.
pub fn begin_read(candidate: &SourceCandidate, limit: usize) -> (r: BoundedRead)
    ensures
        r.stage == ReadStage::PathBefore,
        r.limit == limit,
        r.discovered == discovered_fingerprint(*candidate),
        r.bytes@.len() == 0,
        r.within(),
{
    BoundedRead {
        stage: ReadStage::PathBefore,
        limit,
        discovered: Fingerprint {
            length: candidate.size_bytes,
            mtime: candidate.mtime,
            identity: candidate.identity,
        },
        bytes: Vec::new(),
    }
}

/// The question that a read asks. A read that has taken one byte more than the limit
/// asks for nothing: the file is too large.
pub fn read_question(read: &BoundedRead) -> (r: Result<ReadQuestion, ReadFailure>)
    ensures
        match read.stage {
            ReadStage::PathBefore | ReadStage::PathAfter { .. } => r == Ok::<
                ReadQuestion,
                ReadFailure,
            >(ReadQuestion::StatPath),
            ReadStage::HandleBefore => r == Ok::<ReadQuestion, ReadFailure>(ReadQuestion::Open),
            ReadStage::HandleAfter => r == Ok::<ReadQuestion, ReadFailure>(
                ReadQuestion::StatHandle,
            ),
            ReadStage::Reading => if read.bytes@.len() > read.limit {
                r == Err::<ReadQuestion, ReadFailure>(ReadFailure::TooLarge)
            } else {
                r matches Ok(ReadQuestion::Read { at_most }) && 0 < at_most <= CHUNK_BYTES
                    && at_most <= read.limit + 1 - read.bytes@.len() && (at_most == CHUNK_BYTES
                    || at_most == read.limit + 1 - read.bytes@.len())
            },
        },
{
    match read.stage {
        ReadStage::PathBefore => Ok(ReadQuestion::StatPath),
        ReadStage::PathAfter { .. } => Ok(ReadQuestion::StatPath),
        ReadStage::HandleBefore => Ok(ReadQuestion::Open),
        ReadStage::HandleAfter => Ok(ReadQuestion::StatHandle),
        ReadStage::Reading => {
            if read.bytes.len() > read.limit {
                return Err(ReadFailure::TooLarge);
            }
            let left: usize = read.limit - read.bytes.len();
            let at_most: usize = if left >= CHUNK_BYTES {
                CHUNK_BYTES
            } else {
                left + 1
            };
            Ok(ReadQuestion::Read { at_most })
        },
    }
}

/// What follows from an answer.
pub open spec fn is_read_step(read: BoundedRead, answer: ReadAnswer, step: ReadStep) -> bool {
    match read.stage {
        ReadStage::PathBefore => match answer.stat {
            Err(kind) => step == ReadStep::Failed(ReadFailure::Io(kind)),
            Ok(stat) => if !stat.is_regular || stat.fingerprint != read.discovered {
                step == ReadStep::Failed(ReadFailure::Changed)
            } else if stat.fingerprint.length > read.limit {
                step == ReadStep::Failed(ReadFailure::TooLarge)
            } else {
                step matches ReadStep::Ask(next) && goes_on(read, next, ReadStage::HandleBefore)
                    && next.bytes@ == read.bytes@
            },
        },
        ReadStage::HandleBefore => match answer.stat {
            Err(kind) => step == ReadStep::Failed(ReadFailure::Io(kind)),
            Ok(stat) => if !stat.is_regular || stat.fingerprint != read.discovered {
                step == ReadStep::Failed(ReadFailure::Changed)
            } else {
                step matches ReadStep::Ask(next) && goes_on(read, next, ReadStage::Reading)
                    && next.bytes@ == read.bytes@
            },
        },
        ReadStage::Reading => match answer.chunk {
            Err(kind) => step == ReadStep::Failed(ReadFailure::Io(kind)),
            Ok(chunk) => if chunk@.len() > 0 {
                step matches ReadStep::Ask(next) && goes_on(read, next, ReadStage::Reading)
                    && next.bytes@ == read.bytes@ + chunk@
            } else if read.bytes@.len() > read.limit {
                step == ReadStep::Failed(ReadFailure::TooLarge)
            } else {
                step matches ReadStep::Ask(next) && goes_on(read, next, ReadStage::HandleAfter)
                    && next.bytes@ == read.bytes@
            },
        },
        ReadStage::HandleAfter => match answer.stat {
            Err(kind) => step == ReadStep::Failed(ReadFailure::Io(kind)),
            Ok(stat) => step matches ReadStep::Ask(next) && goes_on(
                read,
                next,
                ReadStage::PathAfter { handle: stat.fingerprint },
            ) && next.bytes@ == read.bytes@,
        },
        ReadStage::PathAfter { handle } => match answer.stat {
            Err(kind) => step == ReadStep::Failed(ReadFailure::Io(kind)),
            Ok(stat) => if !stat.is_regular || handle != read.discovered || stat.fingerprint
                != handle {
                step == ReadStep::Failed(ReadFailure::Changed)
            } else {
                step matches ReadStep::Read(bytes, fingerprint) && bytes@ == read.bytes@
                    && fingerprint == read.discovered
            },
        },
    }
}

/// The read goes on to a stage.
pub open spec fn goes_on(read: BoundedRead, next: BoundedRead, stage: ReadStage) -> bool {
    next.stage == stage && next.limit == read.limit && next.discovered == read.discovered
}

/// Decides what follows from an answer: a file that is not the one that was
/// discovered, or that changes while it is read, is not admitted.
pub fn read_bounded(read: BoundedRead, answer: ReadAnswer) -> (r: ReadStep)
    ensures
        is_read_step(read, answer, r),
{
    let BoundedRead { stage, limit, discovered, bytes } = read;
    match stage {
        ReadStage::PathBefore => match answer.stat {
            Err(kind) => ReadStep::Failed(ReadFailure::Io(kind)),
            Ok(stat) => if !stat.is_regular || stat.fingerprint != discovered {
                ReadStep::Failed(ReadFailure::Changed)
            } else if stat.fingerprint.length > limit as u64 {
                ReadStep::Failed(ReadFailure::TooLarge)
            } else {
                ReadStep::Ask(
                    BoundedRead { stage: ReadStage::HandleBefore, limit, discovered, bytes },
                )
            },
        },
        ReadStage::HandleBefore => match answer.stat {
            Err(kind) => ReadStep::Failed(ReadFailure::Io(kind)),
            Ok(stat) => if !stat.is_regular || stat.fingerprint != discovered {
                ReadStep::Failed(ReadFailure::Changed)
            } else {
                ReadStep::Ask(BoundedRead { stage: ReadStage::Reading, limit, discovered, bytes })
            },
        },
        ReadStage::Reading => match answer.chunk {
            Err(kind) => ReadStep::Failed(ReadFailure::Io(kind)),
            Ok(chunk) => if chunk.len() > 0 {
                let mut all = bytes;
                append_bytes(&mut all, chunk.as_slice());
                ReadStep::Ask(
                    BoundedRead { stage: ReadStage::Reading, limit, discovered, bytes: all },
                )
            } else if bytes.len() > limit {
                ReadStep::Failed(ReadFailure::TooLarge)
            } else {
                ReadStep::Ask(
                    BoundedRead { stage: ReadStage::HandleAfter, limit, discovered, bytes },
                )
            },
        },
        ReadStage::HandleAfter => match answer.stat {
            Err(kind) => ReadStep::Failed(ReadFailure::Io(kind)),
            Ok(stat) => ReadStep::Ask(
                BoundedRead {
                    stage: ReadStage::PathAfter { handle: stat.fingerprint },
                    limit,
                    discovered,
                    bytes,
                },
            ),
        },
        ReadStage::PathAfter { handle } => match answer.stat {
            Err(kind) => ReadStep::Failed(ReadFailure::Io(kind)),
            Ok(stat) => if !stat.is_regular || handle != discovered || stat.fingerprint != handle {
                ReadStep::Failed(ReadFailure::Changed)
            } else {
                ReadStep::Read(bytes, discovered)
            },
        },
    }
}

/// A state of a read that is behind its last piece holds no more than the limit.
pub open spec fn read_bounds(read: BoundedRead) -> bool {
    match read.stage {
        ReadStage::HandleAfter | ReadStage::PathAfter { .. } => read.bytes@.len() <= read.limit,
        ReadStage::PathBefore | ReadStage::HandleBefore => read.bytes@.len() == 0,
        ReadStage::Reading => true,
    }
}

/// The place of a stage among the stages.
pub open spec fn stage_order(stage: ReadStage) -> nat {
    match stage {
        ReadStage::PathBefore => 0,
        ReadStage::HandleBefore => 1,
        ReadStage::Reading => 2,
        ReadStage::HandleAfter => 3,
        ReadStage::PathAfter { .. } => 4,
    }
}

/// A read ends: whatever the answers are, each leads to a later stage, or adds bytes to
/// those that were read, of which no more are asked for once they exceed the limit.
pub proof fn reads_end(read: BoundedRead, answer: ReadAnswer, step: ReadStep)
    requires
        is_read_step(read, answer, step),
    ensures
        step matches ReadStep::Ask(next) ==> stage_order(next.stage) > stage_order(read.stage) || (
        next.stage == read.stage && next.limit == read.limit && next.bytes@.len()
            > read.bytes@.len()),
{
}

/// What is read is what the pieces were, and it is within the limit: no step of a read
/// admits a file that is larger, or whose fingerprint is not the one that was
/// discovered.
pub proof fn reads_are_bounded(read: BoundedRead, answer: ReadAnswer, step: ReadStep)
    requires
        read_bounds(read),
        is_read_step(read, answer, step),
    ensures
        match step {
            ReadStep::Ask(next) => read_bounds(next) && next.discovered == read.discovered
                && next.limit == read.limit,
            ReadStep::Read(bytes, fingerprint) => bytes@ == read.bytes@ && bytes@.len()
                <= read.limit && fingerprint == read.discovered && (answer.stat matches Ok(stat)
                && stat.fingerprint == read.discovered),
            ReadStep::Failed(_) => true,
        },
{
}

/// What a read of a candidate gave.
pub type ReadResult = Result<(Vec<u8>, Fingerprint), ReadFailure>;

/// The omission of a candidate for a reason.
pub open spec fn is_omission_for(
    m: MaterializedCandidate,
    c: SourceCandidate,
    reason: OmissionReason,
) -> bool {
    m == MaterializedCandidate::Omitted(OmittedFile::of(c.path, reason))
}

/// What a candidate becomes: a file with its exact bytes, their text and their
/// digest, or an omission with its reason.
pub open spec fn is_materialized(
    c: SourceCandidate,
    max_file_bytes: usize,
    read: ReadResult,
    m: MaterializedCandidate,
) -> bool {
    match c.language {
        None => is_omission_for(m, c, classification_reason(c.classification)),
        Some(language) => match read {
            Ok((bytes, fingerprint)) => if valid_utf8(bytes@) {
                m matches MaterializedCandidate::File(file) && {
                    &&& file.path == c.path
                    &&& file.language == language
                    &&& file.bytes@ == bytes@
                    &&& file.text@ == decode_utf8(bytes@)
                    &&& file.blake3@ == hex(blake3_of(bytes@))
                    &&& file.mtime == fingerprint.mtime
                }
            } else {
                is_omission_for(m, c, OmissionReason::InvalidUtf8)
            },
            Err(ReadFailure::TooLarge) => is_omission_for(
                m,
                c,
                OmissionReason::FileTooLarge { limit: max_file_bytes },
            ),
            Err(ReadFailure::Changed) => is_omission_for(m, c, OmissionReason::ChangedDuringRead),
            Err(ReadFailure::Io(kind)) => is_omission_for(
                m,
                c,
                OmissionReason::ReadError { kind },
            ),
        },
    }
}

/// Turns what was read of a candidate into a file of the inventory, or an omission.
pub fn materialize_candidate(
    candidate: &SourceCandidate,
    limits: &ResourceLimits,
    read: ReadResult,
) -> (r: MaterializedCandidate)
    ensures
        is_materialized(*candidate, limits.max_file_bytes, read, r),
{
    let language = match candidate.language {
        Some(language) => language,
        None => {
            return MaterializedCandidate::Omitted(
                OmittedFile::new(
                    candidate.path.clone(),
                    classification_omission(candidate.classification),
                ),
            );
        },
    };
    let reason = match read {
        Ok((bytes, fingerprint)) => match text_from_utf8(copied_bytes(bytes.as_slice())) {
            Some(text) => {
                let digest = blake3_digest(bytes.as_slice());
                return MaterializedCandidate::File(
                    InventoryFile {
                        path: candidate.path.clone(),
                        language,
                        blake3: hex_text(digest.as_slice()),
                        bytes,
                        text,
                        mtime: fingerprint.mtime,
                    },
                );
            },
            None => OmissionReason::InvalidUtf8,
        },
        Err(ReadFailure::TooLarge) => OmissionReason::FileTooLarge {
            limit: limits.max_file_bytes,
        },
        Err(ReadFailure::Changed) => OmissionReason::ChangedDuringRead,
        Err(ReadFailure::Io(kind)) => OmissionReason::ReadError { kind },
    };
    MaterializedCandidate::Omitted(OmittedFile::new(candidate.path.clone(), reason))
}

/// Turns what was read of a candidate into a file or an omission, unless the command
/// is interrupted before or after: an interruption is never an omission.
pub fn materialize_candidate_checked<C: Cancellation>(
    candidate: &SourceCandidate,
    limits: &ResourceLimits,
    read: ReadResult,
    deadline: &Deadline,
    cancellation: &C,
) -> (r: Result<MaterializedCandidate, CliError>)
    ensures
        match r {
            Ok(m) => is_materialized(*candidate, limits.max_file_bytes, read, m),
            Err(e) => is_interruption(e, *deadline, cancellation),
        },
        heeds(*deadline, cancellation, failure_of(r)),
{
    deadline.check(cancellation)?;
    let result = materialize_candidate(candidate, limits, read);
    deadline.check(cancellation)?;
    Ok(result)
}

/// The sizes of the first `n` files together.
pub open spec fn bytes_total(files: Seq<InventoryFile>, n: int) -> int
    decreases n,
{
    if n <= 0 {
        0
    } else {
        bytes_total(files, n - 1) + files[n - 1].bytes@.len()
    }
}

/// An inventory under construction.
#[derive(Debug)]
pub struct InventoryBuilder {
    pub files: Vec<InventoryFile>,
    pub omitted: Vec<OmittedFile>,
    pub total: usize,
}

impl InventoryBuilder {
    /// The budgets are kept, and the total is that of the files.
    pub open spec fn keeps(self, limits: ResourceLimits) -> bool {
        &&& self.files@.len() <= limits.max_files
        &&& self.total <= limits.max_total_bytes
        &&& self.total == bytes_total(self.files@, self.files@.len() as int)
    }

    /// Begins with what the discovery left out.
    pub fn new(omitted: Vec<OmittedFile>, limits: &ResourceLimits) -> (r: Self)
        ensures
            r.files@.len() == 0,
            r.omitted == omitted,
            r.keeps(*limits),
    {
        InventoryBuilder { files: Vec::new(), omitted, total: 0 }
    }

    /// Offers a candidate: tells whether it is to be read, else leaves it out.
    pub fn offer(&mut self, candidate: &SourceCandidate, limits: &ResourceLimits) -> (read: bool)
        requires
            old(self).keeps(*limits),
        ensures
            final(self).keeps(*limits),
            final(self).files == old(self).files,
            final(self).total == old(self).total,
            read == (candidate.language is Some && old(self).files@.len() < limits.max_files),
            read ==> final(self).omitted@ == old(self).omitted@,
            !read ==> final(self).omitted@ == old(self).omitted@.push(
                OmittedFile::of(
                    candidate.path,
                    if candidate.language is None {
                        classification_reason(candidate.classification)
                    } else {
                        OmissionReason::FileCountLimit { limit: limits.max_files }
                    },
                ),
            ),
    {
        if candidate.language.is_none() {
            self.omitted.push(
                OmittedFile::new(
                    candidate.path.clone(),
                    classification_omission(candidate.classification),
                ),
            );
            return false;
        }
        if self.files.len() >= limits.max_files {
            self.omitted.push(
                OmittedFile::new(
                    candidate.path.clone(),
                    OmissionReason::FileCountLimit { limit: limits.max_files },
                ),
            );
            return false;
        }
        true
    }

    /// Takes what became of a candidate: a file that no longer fits is left out.
    pub fn absorb(&mut self, materialized: MaterializedCandidate, limits: &ResourceLimits)
        requires
            old(self).keeps(*limits),
            old(self).files@.len() < limits.max_files,
        ensures
            final(self).keeps(*limits),
            match materialized {
                MaterializedCandidate::Omitted(o) => final(self).files == old(self).files
                    && final(self).omitted@ == old(self).omitted@.push(o),
                MaterializedCandidate::File(file) => if old(self).total + file.bytes@.len()
                    <= limits.max_total_bytes {
                    final(self).omitted == old(self).omitted && final(self).files@ == old(self).files@.push(file)
                } else {
                    final(self).files == old(self).files && final(self).omitted@ == old(self).omitted@.push(
                        OmittedFile::of(
                            file.path,
                            OmissionReason::TotalBytesLimit { limit: limits.max_total_bytes },
                        ),
                    )
                },
            },
    {
        match materialized {
            MaterializedCandidate::Omitted(o) => {
                self.omitted.push(o);
            },
            MaterializedCandidate::File(file) => {
                if file.bytes.len() <= limits.max_total_bytes - self.total {
                    let ghost before = self.files@;
                    let size = file.bytes.len();
                    self.total = self.total + size;
                    self.files.push(file);
                    proof {
                        lemma_bytes_prefix(before, self.files@, before.len() as int);
                    }
                } else {
                    self.omitted.push(
                        OmittedFile::new(
                            file.path,
                            OmissionReason::TotalBytesLimit { limit: limits.max_total_bytes },
                        ),
                    );
                }
            },
        }
    }

    /// The inventory: its omissions sorted and counted by reason, and complete unless
    /// one of them may hide a source.
    pub fn finish(self) -> (r: SourceInventory)
        ensures
            r.files == self.files,
            is_stable_sort(self.omitted@, r.omitted@),
            r.completeness == completeness_of(r.omitted@),
            r.summary.admitted_files == self.files@.len(),
            r.summary.admitted_bytes == self.total,
            r.summary.omitted_files == r.omitted@.len(),
            is_tally(r.omitted@, r.summary.omission_reasons@),
    {
        let omitted = stable_sort(self.omitted);
        let omission_reasons = count_reasons(&omitted);
        let mut partial = false;
        let mut i: usize = 0;
        while i < omitted.len()
            invariant
                i <= omitted.len(),
                partial == exists|j: int|
                    0 <= j < i && (#[trigger] omitted@[j]).impact
                        == OmissionImpact::IncompleteSourceSet,
            decreases omitted.len() - i,
        {
            if omitted[i].impact == OmissionImpact::IncompleteSourceSet {
                assert(omitted@[i as int].impact == OmissionImpact::IncompleteSourceSet);
                partial = true;
            }
            i += 1;
        }
        SourceInventory {
            completeness: if partial {
                InventoryCompleteness::Partial
            } else {
                InventoryCompleteness::Complete
            },
            summary: InventorySummary {
                admitted_files: self.files.len(),
                admitted_bytes: self.total,
                omitted_files: omitted.len(),
                omission_reasons,
            },
            files: self.files,
            omitted,
        }
    }
}

/// The files and omissions of an inventory under construction.
pub struct InventoryState {
    pub files: Seq<InventoryFile>,
    pub omitted: Seq<OmittedFile>,
}

/// The inventory without the candidate, for a reason.
pub open spec fn without(state: InventoryState, path: ProjectPath, reason: OmissionReason) -> InventoryState {
    InventoryState {
        files: state.files,
        omitted: state.omitted.push(OmittedFile::of(path, reason)),
    }
}

/// What a materialized candidate makes of the inventory.
pub open spec fn absorbed(
    state: InventoryState,
    m: MaterializedCandidate,
    limits: ResourceLimits,
) -> InventoryState {
    match m {
        MaterializedCandidate::Omitted(o) => InventoryState {
            files: state.files,
            omitted: state.omitted.push(o),
        },
        MaterializedCandidate::File(file) => if bytes_total(state.files, state.files.len() as int)
            + file.bytes@.len() <= limits.max_total_bytes {
            InventoryState { files: state.files.push(file), omitted: state.omitted }
        } else {
            without(
                state,
                file.path,
                OmissionReason::TotalBytesLimit { limit: limits.max_total_bytes },
            )
        },
    }
}

/// The candidate was materialized from what the reader gave for it.
pub open spec fn read_and_materialized<F: Fn(&SourceCandidate) -> ReadResult>(
    c: SourceCandidate,
    limits: ResourceLimits,
    read: F,
    m: MaterializedCandidate,
) -> bool {
    exists|result: ReadResult| #[trigger]
        call_ensures(read, (&c,), result) && is_materialized(
            c,
            limits.max_file_bytes,
            result,
            m,
        )
}

/// What one more candidate makes of the inventory: it is left out for its language or
/// for the number of files, or it is read.
pub open spec fn is_taken<F: Fn(&SourceCandidate) -> ReadResult>(
    before: InventoryState,
    c: SourceCandidate,
    limits: ResourceLimits,
    read: F,
    after: InventoryState,
) -> bool {
    if c.language is None {
        after == without(before, c.path, classification_reason(c.classification))
    } else if before.files.len() >= limits.max_files {
        after == without(
            before,
            c.path,
            OmissionReason::FileCountLimit { limit: limits.max_files },
        )
    } else {
        exists|m: MaterializedCandidate| #[trigger]
            read_and_materialized(c, limits, read, m) && after == absorbed(before, m, limits)
    }
}

/// What the first `n` candidates make of the inventory, one after another.
pub open spec fn is_built<F: Fn(&SourceCandidate) -> ReadResult>(
    start: InventoryState,
    candidates: Seq<SourceCandidate>,
    limits: ResourceLimits,
    read: F,
    n: nat,
    state: InventoryState,
) -> bool
    decreases n,
{
    if n == 0 {
        state == start
    } else {
        exists|before: InventoryState| #[trigger]
            is_taken(before, candidates[n - 1], limits, read, state) && is_built(
                start,
                candidates,
                limits,
                read,
                (n - 1) as nat,
                before,
            )
    }
}

/// The inventory is made of the files and omissions of a state.
pub open spec fn is_inventory(state: InventoryState, r: SourceInventory) -> bool {
    &&& r.files@ == state.files
    &&& is_stable_sort(state.omitted, r.omitted@)
    &&& r.completeness == completeness_of(r.omitted@)
    &&& r.summary.admitted_files == state.files.len()
    &&& r.summary.admitted_bytes == bytes_total(state.files, state.files.len() as int)
    &&& r.summary.omitted_files == r.omitted@.len()
    &&& is_tally(r.omitted@, r.summary.omission_reasons@)
}

/// The inventory is what the discovery and the reader make of each other.
pub open spec fn is_inventory_of<F: Fn(&SourceCandidate) -> ReadResult>(
    discovery: SourceDiscovery,
    limits: ResourceLimits,
    read: F,
    r: SourceInventory,
) -> bool {
    exists|state: InventoryState| #[trigger]
        is_built(
            InventoryState { files: Seq::empty(), omitted: discovery.omitted@ },
            discovery.candidates@,
            limits,
            read,
            discovery.candidates@.len(),
            state,
        ) && is_inventory(state, r)
}

/// Builds the inventory of a discovery; the reader reads one candidate.
pub fn build_inventory<F: Fn(&SourceCandidate) -> ReadResult>(
    discovery: SourceDiscovery,
    limits: &ResourceLimits,
    read: F,
) -> (r: SourceInventory)
    requires
        forall|c: &SourceCandidate| #[trigger] call_requires(read, (c,)),
    ensures
        is_inventory_of(discovery, *limits, read, r),
        r.files@.len() <= limits.max_files,
        bytes_total(r.files@, r.files@.len() as int) <= limits.max_total_bytes,
{
    let candidates = discovery.candidates;
    let ghost start = InventoryState { files: Seq::empty(), omitted: discovery.omitted@ };
    let mut builder = InventoryBuilder::new(discovery.omitted, limits);
    let ghost mut state = start;
    let mut i: usize = 0;
    assert(builder.files@ =~= start.files);
    while i < candidates.len()
        invariant
            i <= candidates.len(),
            forall|c: &SourceCandidate| #[trigger] call_requires(read, (c,)),
            builder.keeps(*limits),
            state == (InventoryState { files: builder.files@, omitted: builder.omitted@ }),
            is_built(start, candidates@, *limits, read, i as nat, state),
        decreases candidates.len() - i,
    {
        let candidate = &candidates[i];
        let ghost before = state;
        if builder.offer(candidate, limits) {
            let result = read(candidate);
            let ghost given = result;
            let materialized = materialize_candidate(candidate, limits, result);
            let ghost m = materialized;
            assert(call_ensures(read, (candidate,), given));
            assert(read_and_materialized(candidates@[i as int], *limits, read, m));
            builder.absorb(materialized, limits);
            proof {
                state = InventoryState { files: builder.files@, omitted: builder.omitted@ };
                assert(state.files =~= absorbed(before, m, *limits).files);
                assert(state.omitted =~= absorbed(before, m, *limits).omitted);
            }
        } else {
            proof {
                state = InventoryState { files: builder.files@, omitted: builder.omitted@ };
            }
        }
        proof {
            assert(is_taken(before, candidates@[i as int], *limits, read, state));
            assert((((i + 1) as nat) - 1) as nat == i as nat);
            assert(is_built(start, candidates@, *limits, read, (i + 1) as nat, state));
        }
        i += 1;
    }
    let r = builder.finish();
    assert(is_inventory(state, r));
    r
}

proof fn lemma_bytes_prefix(a: Seq<InventoryFile>, b: Seq<InventoryFile>, n: int)
    requires
        n <= a.len() <= b.len(),
        forall|i: int| 0 <= i < n ==> a[i] == b[i],
    ensures
        bytes_total(a, n) == bytes_total(b, n),
    decreases n,
{
    if n > 0 {
        lemma_bytes_prefix(a, b, n - 1);
    }
}

/// An inventory is complete when no omission may hide a source.
pub open spec fn completeness_of(omitted: Seq<OmittedFile>) -> InventoryCompleteness {
    if exists|i: int|
        0 <= i < omitted.len() && (#[trigger] omitted[i]).impact
            == OmissionImpact::IncompleteSourceSet {
        InventoryCompleteness::Partial
    } else {
        InventoryCompleteness::Complete
    }
}

/// How often each reason occurs among the first `n` omissions, by its tag; the reason
/// is the first one of the tag.
pub open spec fn tally(omitted: Seq<OmittedFile>, n: int) -> Map<Seq<char>, (OmissionReason, usize)>
    decreases n,
{
    if n <= 0 {
        Map::empty()
    } else {
        let before = tally(omitted, n - 1);
        let tag = omitted[n - 1].reason.tag_text();
        if before.contains_key(tag) {
            before.insert(tag, (before[tag].0, (before[tag].1 + 1) as usize))
        } else {
            before.insert(tag, (omitted[n - 1].reason, 1usize))
        }
    }
}

/// The counts are those of the reasons, in the order of their tags.
pub open spec fn is_tally(omitted: Seq<OmittedFile>, counts: Seq<(OmissionReason, usize)>) -> bool {
    exists|tags: Seq<Seq<char>>| #[trigger]
        strictly_ascending(tags) && is_tally_by(omitted, counts, tags)
}

/// The counts are those of the reasons with these tags.
pub open spec fn is_tally_by(
    omitted: Seq<OmittedFile>,
    counts: Seq<(OmissionReason, usize)>,
    tags: Seq<Seq<char>>,
) -> bool {
    let all = tally(omitted, omitted.len() as int);
    &&& counts.len() == tags.len()
    &&& forall|tag: Seq<char>| #[trigger] all.contains_key(tag) <==> tags.contains(tag)
    &&& forall|i: int| 0 <= i < tags.len() ==> counts[i] == all[#[trigger] tags[i]]
}

fn count_reasons(omitted: &Vec<OmittedFile>) -> (r: Vec<(OmissionReason, usize)>)
    ensures
        is_tally(omitted@, r@),
{
    let mut counts: TextMap<(OmissionReason, usize)> = TextMap::new();
    let mut i: usize = 0;
    while i < omitted.len()
        invariant
            i <= omitted.len(),
            counts.indexed(),
            counts@ == tally(omitted@, i as int),
            forall|tag: Seq<char>| #[trigger]
                counts@.contains_key(tag) ==> counts@[tag].1 <= i,
        decreases omitted.len() - i,
    {
        let tag = omitted[i].reason.tag();
        let entry: (OmissionReason, usize) = match counts.get(tag.as_str()) {
            Some(found) => (found.0, found.1 + 1),
            None => (omitted[i].reason, 1),
        };
        counts.insert(tag, entry);
        i += 1;
    }
    let count = counts.len();
    let ghost tags = counts.keys();
    let mut r: Vec<(OmissionReason, usize)> = Vec::new();
    let mut k: usize = 0;
    while k < count
        invariant
            k <= count,
            count == counts.keys().len(),
            tags == counts.keys(),
            counts.indexed(),
            r@.len() == k,
            forall|j: int| 0 <= j < k ==> #[trigger] r@[j] == counts.values()[j],
        decreases count - k,
    {
        r.push(*counts.value_at(k));
        k += 1;
    }
    proof {
        assert forall|j: int| 0 <= j < tags.len() implies r@[j] == counts@[#[trigger] tags[j]] by {
            assert(r@[j] == counts.values()[j]);
        }
        assert(is_tally_by(omitted@, r@, tags));
        assert(strictly_ascending(tags));
    }
    r
}

} // verus!
