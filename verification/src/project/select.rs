//! Selection of a project root. What the file system says is found out by the
//! caller, one question at a time; which questions are asked and what follows from
//! the answers is decided here.

use vstd::prelude::*;
use vstd::string::*;
use crate::cache::location::{join_path, path_join};
use crate::error::CliError;
use crate::project::manifest::{has_marker, marks, DirectoryEntry};
use crate::project::path::{
    copied_bytes, idle, is_absolute, segments, segments_of, steps, DOT, SLASH,
};
use crate::request::{CliRequest, CommandRequest};
use crate::text::same_bytes;

verus! {

/// Why a project root was selected.
#[derive(Debug, Clone, Copy, PartialEq, Eq, Structural)]
pub enum SelectionProvenance {
    RootArgument,
    IndexDirectory,
    IndexFileManifest,
    IndexFileParent,
    CurrentDirectory,
}

/// An owned canonical project root and the optional canonical index source path.
#[derive(Debug, Clone, PartialEq, Eq)]
pub struct ProjectSelection {
    pub canonical_root: Vec<u8>,
    pub canonical_source: Option<Vec<u8>>,
    pub provenance: SelectionProvenance,
}

/// What a path leads to.
#[derive(Debug, Clone, Copy, PartialEq, Eq, Structural)]
pub enum FileKind {
    Directory,
    File,
    Symlink,
    Other,
}

/// What is asked about the file system.
#[derive(Debug, Clone, PartialEq, Eq)]
pub enum PathQuestion {
    /// What the path leads to, without following a link.
    Inspect { path: Vec<u8> },
    /// What the path leads to, links followed.
    Stat { path: Vec<u8> },
    /// The canonical spelling of the path.
    Canonicalize { path: Vec<u8> },
    /// The entries of the directory; none when it cannot be read.
    List { path: Vec<u8> },
}

/// What was found out. Only the part that was asked for is read.
#[derive(Debug)]
pub struct PathAnswer {
    pub kind: Result<FileKind, String>,
    pub canonical: Result<Vec<u8>, String>,
    pub entries: Vec<DirectoryEntry>,
}

/// A stage of the selection.
#[derive(Debug, Clone, Copy, PartialEq, Eq, Structural)]
pub enum SelectionStage {
    CheckCwd,
    StatCwd,
    CanonicalizeCwd,
    CheckTarget,
    StatTarget,
    CanonicalizeSource,
    FindMarker,
    CheckRoot,
    CanonicalizeRoot,
}

/// How far the selection has come. The place counts the components that were
/// checked, or the directories that were searched.
#[derive(Debug, Clone, PartialEq, Eq)]
pub struct SelectionState {
    pub stage: SelectionStage,
    pub path: Vec<u8>,
    pub place: usize,
    pub source: Option<Vec<u8>>,
    pub provenance: SelectionProvenance,
}

/// How far the selection has come.
pub struct StateView {
    pub stage: SelectionStage,
    pub path: Seq<u8>,
    pub place: int,
    pub source: Option<Seq<u8>>,
    pub provenance: SelectionProvenance,
}

/// The bytes of an optional path.
pub open spec fn optional_bytes(b: Option<Vec<u8>>) -> Option<Seq<u8>> {
    match b {
        Some(v) => Some(v@),
        None => None,
    }
}

impl SelectionState {
    /// How far the selection has come.
    pub open spec fn view(self) -> StateView {
        StateView {
            stage: self.stage,
            path: self.path@,
            place: self.place as int,
            source: optional_bytes(self.source),
            provenance: self.provenance,
        }
    }
}

/// What follows from an answer.
#[derive(Debug)]
pub enum SelectionStep {
    Ask(SelectionState),
    Done(Result<ProjectSelection, CliError>),
}

/// What follows from an answer.
pub enum StepOutcome {
    Ask(StateView),
    Selected { root: Seq<u8>, source: Option<Seq<u8>>, provenance: SelectionProvenance },
    BadPath { path: Seq<u8>, reason: Seq<char> },
    Symlink { path: Seq<u8> },
}

/// The step is the outcome.
pub open spec fn is_outcome(step: SelectionStep, outcome: StepOutcome) -> bool {
    match (step, outcome) {
        (SelectionStep::Ask(state), StepOutcome::Ask(view)) => state@ == view,
        (
            SelectionStep::Done(Ok(selection)),
            StepOutcome::Selected { root, source, provenance },
        ) => selection.canonical_root@ == root && optional_bytes(selection.canonical_source)
            == source && selection.provenance == provenance,
        (SelectionStep::Done(Err(e)), StepOutcome::BadPath { path, reason }) => e.is_project_path(
            path,
            reason,
        ),
        (SelectionStep::Done(Err(e)), StepOutcome::Symlink { path }) => e matches
            CliError::ProjectSymlink { path: p } && p@ == path,
        _ => false,
    }
}

/// The path of the first `n` steps from the root directory.
pub open spec fn prefix_path(parts: Seq<Seq<u8>>, n: int) -> Seq<u8>
    decreases n,
{
    if n <= 0 {
        seq![SLASH]
    } else {
        path_join(prefix_path(parts, n - 1), parts[n - 1])
    }
}

/// The step goes to the directory above.
pub open spec fn is_up(step: Seq<u8>) -> bool {
    step == seq![DOT, DOT]
}

/// The paths up to each of the first `n` steps that is a name.
pub open spec fn prefixes(parts: Seq<Seq<u8>>, n: int) -> Seq<Seq<u8>>
    decreases n,
{
    if n <= 0 {
        Seq::empty()
    } else if is_up(parts[n - 1]) {
        prefixes(parts, n - 1)
    } else {
        prefixes(parts, n - 1).push(prefix_path(parts, n))
    }
}

/// The components of an absolute path, each with the path up to it. None of them may
/// be a link.
pub open spec fn check_points(path: Seq<u8>) -> Seq<Seq<u8>> {
    let parts = steps(segments(path));
    prefixes(parts, parts.len() as int)
}

/// The directories above a file, the nearest first.
pub open spec fn ancestors(path: Seq<u8>) -> Seq<Seq<u8>> {
    let parts = steps(segments(path));
    Seq::new(parts.len(), |k: int| prefix_path(parts, parts.len() - 1 - k))
}

/// The path, against a directory where it is relative.
pub open spec fn resolved_against(path: Seq<u8>, cwd: Seq<u8>) -> Seq<u8> {
    if is_absolute(path) {
        path
    } else {
        path_join(cwd, path)
    }
}

/// The stage that follows once all components of a path were checked.
pub open spec fn checked(state: StateView) -> StateView {
    let stage = match state.stage {
        SelectionStage::CheckCwd => SelectionStage::StatCwd,
        SelectionStage::CheckTarget => SelectionStage::StatTarget,
        _ => SelectionStage::CanonicalizeRoot,
    };
    StateView { stage, place: 0, ..state }
}

/// The components of the path are checked before anything else is done with it.
pub open spec fn checking(
    stage: SelectionStage,
    path: Seq<u8>,
    source: Option<Seq<u8>>,
    provenance: SelectionProvenance,
) -> StepOutcome {
    let state = StateView { stage, path, place: 0, source, provenance };
    if !is_absolute(path) {
        StepOutcome::BadPath { path, reason: "path must be absolute before symlink validation"@ }
    } else if check_points(path).len() == 0 {
        StepOutcome::Ask(checked(state))
    } else {
        StepOutcome::Ask(state)
    }
}

/// The first stage of a selection.
pub open spec fn started(cwd: Seq<u8>) -> StepOutcome {
    if !is_absolute(cwd) {
        StepOutcome::BadPath { path: cwd, reason: "cwd must be absolute"@ }
    } else {
        checking(SelectionStage::CheckCwd, cwd, None, SelectionProvenance::CurrentDirectory)
    }
}

/// The paths that a request names: a root goes before the path of an index command.
pub open spec fn named_root(request: CliRequest) -> Option<Seq<u8>> {
    optional_bytes(request.global.root)
}

/// The path of an index command.
pub open spec fn named_path(request: CliRequest) -> Option<Seq<u8>> {
    match request.command {
        CommandRequest::Index { path, .. } => optional_bytes(path),
        _ => None,
    }
}

/// What is selected from, once the working directory is canonical.
pub open spec fn targeted(request: CliRequest, cwd: Seq<u8>) -> StepOutcome {
    match named_root(request) {
        Some(root) => checking(
            SelectionStage::CheckTarget,
            resolved_against(root, cwd),
            None,
            SelectionProvenance::RootArgument,
        ),
        None => match named_path(request) {
            Some(path) => checking(
                SelectionStage::CheckTarget,
                resolved_against(path, cwd),
                None,
                SelectionProvenance::IndexDirectory,
            ),
            None => checking(
                SelectionStage::CheckTarget,
                resolved_against(cwd, cwd),
                None,
                SelectionProvenance::CurrentDirectory,
            ),
        },
    }
}

/// Some entry of the directory is a manifest.
pub open spec fn any_marker(entries: Seq<DirectoryEntry>) -> bool {
    exists|i: int| 0 <= i < entries.len() && marks(#[trigger] entries[i])
}

/// What follows from an answer.
pub open spec fn followed_by(
    request: CliRequest,
    state: StateView,
    answer: PathAnswer,
) -> StepOutcome {
    let path = state.path;
    match state.stage {
        SelectionStage::CheckCwd | SelectionStage::CheckTarget | SelectionStage::CheckRoot => {
            let point = check_points(path)[state.place];
            match answer.kind {
                Err(reason) => StepOutcome::BadPath { path: point, reason: reason@ },
                Ok(FileKind::Symlink) => StepOutcome::Symlink { path: point },
                Ok(_) => if state.place + 1 < check_points(path).len() {
                    StepOutcome::Ask(StateView { place: state.place + 1, ..state })
                } else {
                    StepOutcome::Ask(checked(state))
                },
            }
        },
        SelectionStage::StatCwd => match answer.kind {
            Err(reason) => StepOutcome::BadPath { path, reason: reason@ },
            Ok(FileKind::Directory) => StepOutcome::Ask(
                StateView { stage: SelectionStage::CanonicalizeCwd, ..state },
            ),
            Ok(_) => StepOutcome::BadPath { path, reason: "cwd must be an existing directory"@ },
        },
        SelectionStage::CanonicalizeCwd => match answer.canonical {
            Err(reason) => StepOutcome::BadPath { path, reason: reason@ },
            Ok(cwd) => targeted(request, cwd@),
        },
        SelectionStage::StatTarget => match answer.kind {
            Err(reason) => StepOutcome::BadPath { path, reason: reason@ },
            Ok(FileKind::Directory) => checking(
                SelectionStage::CheckRoot,
                path,
                None,
                state.provenance,
            ),
            Ok(FileKind::File) => if state.provenance == SelectionProvenance::IndexDirectory {
                StepOutcome::Ask(
                    StateView { stage: SelectionStage::CanonicalizeSource, ..state },
                )
            } else {
                StepOutcome::BadPath {
                    path,
                    reason: "project root must be an existing directory"@,
                }
            },
            Ok(_) => StepOutcome::BadPath {
                path,
                reason: if state.provenance == SelectionProvenance::IndexDirectory {
                    "index path must be a regular file or directory"@
                } else {
                    "project root must be an existing directory"@
                },
            },
        },
        SelectionStage::CanonicalizeSource => match answer.canonical {
            Err(reason) => StepOutcome::BadPath { path, reason: reason@ },
            Ok(source) => if ancestors(source@).len() == 0 {
                StepOutcome::BadPath { path: source@, reason: "file has no parent directory"@ }
            } else {
                StepOutcome::Ask(
                    StateView {
                        stage: SelectionStage::FindMarker,
                        path: source@,
                        place: 0,
                        source: Some(source@),
                        provenance: SelectionProvenance::IndexFileParent,
                    },
                )
            },
        },
        SelectionStage::FindMarker => if any_marker(answer.entries@) {
            checking(
                SelectionStage::CheckRoot,
                ancestors(path)[state.place],
                state.source,
                SelectionProvenance::IndexFileManifest,
            )
        } else if state.place + 1 < ancestors(path).len() {
            StepOutcome::Ask(StateView { place: state.place + 1, ..state })
        } else {
            checking(
                SelectionStage::CheckRoot,
                ancestors(path)[0],
                state.source,
                SelectionProvenance::IndexFileParent,
            )
        },
        SelectionStage::CanonicalizeRoot => match answer.canonical {
            Err(reason) => StepOutcome::BadPath { path, reason: reason@ },
            Ok(root) => StepOutcome::Selected {
                root: root@,
                source: state.source,
                provenance: state.provenance,
            },
        },
    }
}

/// The place of a state is one of those that its stage counts.
pub open spec fn state_ok(state: StateView) -> bool {
    match state.stage {
        SelectionStage::CheckCwd
        | SelectionStage::CheckTarget
        | SelectionStage::CheckRoot => 0 <= state.place < check_points(state.path).len(),
        SelectionStage::FindMarker => 0 <= state.place < ancestors(state.path).len(),
        _ => true,
    }
}

/// Every question that follows from an answer is one that can be asked.
pub proof fn questions_can_be_asked(request: CliRequest, state: StateView, answer: PathAnswer)
    requires
        state_ok(state),
    ensures
        followed_by(request, state, answer) matches StepOutcome::Ask(next) ==> state_ok(next),
{
}

fn is_rooted(path: &[u8]) -> (r: bool)
    ensures
        r == is_absolute(path@),
{
    path.len() > 0 && path[0] == SLASH
}

/// The steps of a path.
fn steps_of(path: &[u8]) -> (r: Vec<Vec<u8>>)
    ensures
        part_views(r@) == steps(segments(path@)),
{
    let parts = segments_of(path);
    let ghost all = segments(path@);
    let mut r: Vec<Vec<u8>> = Vec::new();
    let mut i: usize = 0;
    reveal(Seq::filter);
    assert(part_views(r@) =~= steps(all.take(0)));
    while i < parts.len()
        invariant
            i <= parts.len(),
            all == part_views(parts@),
            part_views(r@) == steps(all.take(i as int)),
        decreases parts.len() - i,
    {
        proof {
            reveal(Seq::filter);
            assert(all.take(i + 1).drop_last() =~= all.take(i as int));
            assert(all.take(i + 1).last() == parts@[i as int]@);
        }
        if !idle(&parts[i]) {
            let ghost before = r@;
            r.push(copied_bytes(parts[i].as_slice()));
            assert(part_views(r@) =~= part_views(before).push(parts@[i as int]@));
        }
        i += 1;
    }
    assert(all.take(all.len() as int) =~= all);
    r
}

/// The parts of a path as sequences.
pub open spec fn part_views(v: Seq<Vec<u8>>) -> Seq<Seq<u8>> {
    v.map_values(|p: Vec<u8>| p@)
}

fn prefix_of(parts: &Vec<Vec<u8>>, n: usize) -> (r: Vec<u8>)
    requires
        n <= parts@.len(),
    ensures
        r@ == prefix_path(part_views(parts@), n as int),
{
    let ghost all = part_views(parts@);
    let mut path: Vec<u8> = Vec::new();
    path.push(SLASH);
    assert(path@ =~= prefix_path(all, 0));
    let mut i: usize = 0;
    while i < n
        invariant
            i <= n <= parts@.len(),
            all == part_views(parts@),
            path@ == prefix_path(all, i as int),
        decreases n - i,
    {
        assert(all[i as int] == parts@[i as int]@);
        path = join_path(path.as_slice(), parts[i].as_slice());
        i += 1;
    }
    path
}

/// The components of a path that must not be links.
pub fn check_points_of(path: &[u8]) -> (r: Vec<Vec<u8>>)
    ensures
        part_views(r@) == check_points(path@),
{
    let parts = steps_of(path);
    let ghost all = part_views(parts@);
    let up: [u8; 2] = [DOT, DOT];
    let mut points: Vec<Vec<u8>> = Vec::new();
    let mut i: usize = 0;
    assert(part_views(points@) =~= prefixes(all, 0));
    while i < parts.len()
        invariant
            i <= parts.len(),
            all == part_views(parts@),
            up@ == seq![DOT, DOT],
            part_views(points@) == prefixes(all, i as int),
        decreases parts.len() - i,
    {
        assert(all[i as int] == parts@[i as int]@);
        if !same_bytes(parts[i].as_slice(), up.as_slice()) {
            let ghost before = points@;
            let point = prefix_of(&parts, i + 1);
            let ghost p = point@;
            points.push(point);
            assert(part_views(points@) =~= part_views(before).push(p));
        }
        i += 1;
    }
    points
}

/// The directories above a file, the nearest first.
pub fn ancestors_of(path: &[u8]) -> (r: Vec<Vec<u8>>)
    ensures
        part_views(r@) == ancestors(path@),
{
    let parts = steps_of(path);
    let ghost all = part_views(parts@);
    let mut r: Vec<Vec<u8>> = Vec::new();
    let mut left: usize = parts.len();
    while left > 0
        invariant
            left + r@.len() == parts@.len(),
            all == part_views(parts@),
            forall|k: int|
                0 <= k < r@.len() ==> (#[trigger] r@[k])@ == prefix_path(all, all.len() - 1 - k),
        decreases left,
    {
        left = left - 1;
        r.push(prefix_of(&parts, left));
    }
    assert(part_views(r@) =~= ancestors(path@));
    r
}

/// The path, against a directory where it is relative.
pub fn absolute_path(path: &[u8], cwd: &[u8]) -> (r: Vec<u8>)
    ensures
        r@ == resolved_against(path@, cwd@),
{
    if is_rooted(path) {
        copied_bytes(path)
    } else {
        join_path(cwd, path)
    }
}

fn bad_path(path: &[u8], reason: &str) -> (r: SelectionStep)
    ensures
        is_outcome(r, StepOutcome::BadPath { path: path@, reason: reason@ }),
{
    SelectionStep::Done(
        Err(CliError::ProjectPath { path: copied_bytes(path), reason: reason.to_owned() }),
    )
}

fn check(
    stage: SelectionStage,
    path: Vec<u8>,
    source: Option<Vec<u8>>,
    provenance: SelectionProvenance,
) -> (r: SelectionStep)
    ensures
        is_outcome(r, checking(stage, path@, optional_bytes(source), provenance)),
{
    if !is_rooted(path.as_slice()) {
        return bad_path(path.as_slice(), "path must be absolute before symlink validation");
    }
    let points = check_points_of(path.as_slice());
    assert(part_views(points@).len() == points@.len());
    let state = SelectionState { stage, path, place: 0, source, provenance };
    if points.len() == 0 {
        SelectionStep::Ask(pass(state))
    } else {
        SelectionStep::Ask(state)
    }
}

fn pass(state: SelectionState) -> (r: SelectionState)
    ensures
        r@ == checked(state@),
{
    let stage = match state.stage {
        SelectionStage::CheckCwd => SelectionStage::StatCwd,
        SelectionStage::CheckTarget => SelectionStage::StatTarget,
        _ => SelectionStage::CanonicalizeRoot,
    };
    SelectionState {
        stage,
        path: state.path,
        place: 0,
        source: state.source,
        provenance: state.provenance,
    }
}

/// Begins a selection from an absolute working directory.
pub fn begin_selection(cwd: &[u8]) -> (r: SelectionStep)
    ensures
        is_outcome(r, started(cwd@)),
{
    if !is_rooted(cwd) {
        return bad_path(cwd, "cwd must be absolute");
    }
    check(SelectionStage::CheckCwd, copied_bytes(cwd), None, SelectionProvenance::CurrentDirectory)
}

/// The question is the one that the state asks.
pub open spec fn is_question(question: PathQuestion, state: StateView) -> bool {
    match state.stage {
        SelectionStage::CheckCwd
        | SelectionStage::CheckTarget
        | SelectionStage::CheckRoot => question matches PathQuestion::Inspect { path } && path@
            == check_points(state.path)[state.place],
        SelectionStage::StatCwd | SelectionStage::StatTarget => question matches
            PathQuestion::Stat { path } && path@ == state.path,
        SelectionStage::CanonicalizeCwd
        | SelectionStage::CanonicalizeSource
        | SelectionStage::CanonicalizeRoot => question matches PathQuestion::Canonicalize {
            path,
        } && path@ == state.path,
        SelectionStage::FindMarker => question matches PathQuestion::List { path } && path@
            == ancestors(state.path)[state.place],
    }
}

/// The question that a state asks.
pub fn question(state: &SelectionState) -> (r: PathQuestion)
    requires
        state_ok(state@),
    ensures
        is_question(r, state@),
{
    match state.stage {
        SelectionStage::CheckCwd | SelectionStage::CheckTarget | SelectionStage::CheckRoot => {
            let points = check_points_of(state.path.as_slice());
            assert(part_views(points@).len() == points@.len());
            PathQuestion::Inspect { path: copied_bytes(points[state.place].as_slice()) }
        },
        SelectionStage::StatCwd | SelectionStage::StatTarget => PathQuestion::Stat {
            path: copied_bytes(state.path.as_slice()),
        },
        SelectionStage::CanonicalizeCwd
        | SelectionStage::CanonicalizeSource
        | SelectionStage::CanonicalizeRoot => PathQuestion::Canonicalize {
            path: copied_bytes(state.path.as_slice()),
        },
        SelectionStage::FindMarker => {
            let directories = ancestors_of(state.path.as_slice());
            assert(part_views(directories@).len() == directories@.len());
            PathQuestion::List { path: copied_bytes(directories[state.place].as_slice()) }
        },
    }
}

fn target(request: &CliRequest, cwd: &[u8]) -> (r: SelectionStep)
    ensures
        is_outcome(r, targeted(*request, cwd@)),
{
    match &request.global.root {
        Some(root) => {
            return check(
                SelectionStage::CheckTarget,
                absolute_path(root.as_slice(), cwd),
                None,
                SelectionProvenance::RootArgument,
            );
        },
        None => {},
    }
    match &request.command {
        CommandRequest::Index { path, .. } => match path {
            Some(path) => {
                return check(
                    SelectionStage::CheckTarget,
                    absolute_path(path.as_slice(), cwd),
                    None,
                    SelectionProvenance::IndexDirectory,
                );
            },
            None => {},
        },
        _ => {},
    }
    check(
        SelectionStage::CheckTarget,
        absolute_path(cwd, cwd),
        None,
        SelectionProvenance::CurrentDirectory,
    )
}

/// Decides what follows from an answer.
pub fn select_project(request: &CliRequest, state: SelectionState, answer: PathAnswer) -> (r:
    SelectionStep)
    requires
        state_ok(state@),
    ensures
        is_outcome(r, followed_by(*request, state@, answer)),
{
    match state.stage {
        SelectionStage::CheckCwd | SelectionStage::CheckTarget | SelectionStage::CheckRoot => {
            let points = check_points_of(state.path.as_slice());
            assert(part_views(points@).len() == points@.len());
            let point = points[state.place].as_slice();
            match answer.kind {
                Err(reason) => bad_path(point, reason.as_str()),
                Ok(FileKind::Symlink) => SelectionStep::Done(
                    Err(CliError::ProjectSymlink { path: copied_bytes(point) }),
                ),
                Ok(_) => if points.len() - state.place > 1 {
                    SelectionStep::Ask(
                        SelectionState {
                            stage: state.stage,
                            path: state.path,
                            place: state.place + 1,
                            source: state.source,
                            provenance: state.provenance,
                        },
                    )
                } else {
                    SelectionStep::Ask(pass(state))
                },
            }
        },
        SelectionStage::StatCwd => match answer.kind {
            Err(reason) => bad_path(state.path.as_slice(), reason.as_str()),
            Ok(FileKind::Directory) => SelectionStep::Ask(
                SelectionState {
                    stage: SelectionStage::CanonicalizeCwd,
                    path: state.path,
                    place: state.place,
                    source: state.source,
                    provenance: state.provenance,
                },
            ),
            Ok(_) => bad_path(state.path.as_slice(), "cwd must be an existing directory"),
        },
        SelectionStage::CanonicalizeCwd => match answer.canonical {
            Err(reason) => bad_path(state.path.as_slice(), reason.as_str()),
            Ok(cwd) => target(request, cwd.as_slice()),
        },
        SelectionStage::StatTarget => match answer.kind {
            Err(reason) => bad_path(state.path.as_slice(), reason.as_str()),
            Ok(FileKind::Directory) => check(
                SelectionStage::CheckRoot,
                state.path,
                None,
                state.provenance,
            ),
            Ok(FileKind::File) => if state.provenance == SelectionProvenance::IndexDirectory {
                SelectionStep::Ask(
                    SelectionState {
                        stage: SelectionStage::CanonicalizeSource,
                        path: state.path,
                        place: state.place,
                        source: state.source,
                        provenance: state.provenance,
                    },
                )
            } else {
                bad_path(state.path.as_slice(), "project root must be an existing directory")
            },
            Ok(_) => if state.provenance == SelectionProvenance::IndexDirectory {
                bad_path(state.path.as_slice(), "index path must be a regular file or directory")
            } else {
                bad_path(state.path.as_slice(), "project root must be an existing directory")
            },
        },
        SelectionStage::CanonicalizeSource => match answer.canonical {
            Err(reason) => bad_path(state.path.as_slice(), reason.as_str()),
            Ok(source) => {
                let directories = ancestors_of(source.as_slice());
                assert(part_views(directories@).len() == directories@.len());
                if directories.len() == 0 {
                    bad_path(source.as_slice(), "file has no parent directory")
                } else {
                    SelectionStep::Ask(
                        SelectionState {
                            stage: SelectionStage::FindMarker,
                            path: copied_bytes(source.as_slice()),
                            place: 0,
                            source: Some(source),
                            provenance: SelectionProvenance::IndexFileParent,
                        },
                    )
                }
            },
        },
        SelectionStage::FindMarker => {
            let directories = ancestors_of(state.path.as_slice());
            assert(part_views(directories@).len() == directories@.len());
            if has_marker(&answer.entries) {
                check(
                    SelectionStage::CheckRoot,
                    copied_bytes(directories[state.place].as_slice()),
                    state.source,
                    SelectionProvenance::IndexFileManifest,
                )
            } else if directories.len() - state.place > 1 {
                SelectionStep::Ask(
                    SelectionState {
                        stage: state.stage,
                        path: state.path,
                        place: state.place + 1,
                        source: state.source,
                        provenance: state.provenance,
                    },
                )
            } else {
                check(
                    SelectionStage::CheckRoot,
                    copied_bytes(directories[0].as_slice()),
                    state.source,
                    SelectionProvenance::IndexFileParent,
                )
            }
        },
        SelectionStage::CanonicalizeRoot => match answer.canonical {
            Err(reason) => bad_path(state.path.as_slice(), reason.as_str()),
            Ok(root) => SelectionStep::Done(
                Ok(
                    ProjectSelection {
                        canonical_root: root,
                        canonical_source: state.source,
                        provenance: state.provenance,
                    },
                ),
            ),
        },
    }
}

/// The state is one of a selection that was begun for the request: a named root is
/// the target, and only the path of an index command is searched upwards from.
pub open spec fn keeps_precedence(request: CliRequest, state: StateView) -> bool {
    match state.stage {
        SelectionStage::CheckCwd
        | SelectionStage::StatCwd
        | SelectionStage::CanonicalizeCwd => true,
        SelectionStage::CheckTarget | SelectionStage::StatTarget => if named_root(
            request,
        ) is Some {
            state.provenance == SelectionProvenance::RootArgument
        } else if named_path(request) is Some {
            state.provenance == SelectionProvenance::IndexDirectory
        } else {
            state.provenance == SelectionProvenance::CurrentDirectory
        },
        SelectionStage::CanonicalizeSource | SelectionStage::FindMarker => named_root(
            request,
        ) is None && named_path(request) is Some,
        SelectionStage::CheckRoot | SelectionStage::CanonicalizeRoot => if named_root(
            request,
        ) is Some {
            state.provenance == SelectionProvenance::RootArgument && state.source is None
        } else if named_path(request) is None {
            state.provenance == SelectionProvenance::CurrentDirectory && state.source is None
        } else {
            state.provenance != SelectionProvenance::RootArgument && state.provenance
                != SelectionProvenance::CurrentDirectory
        },
    }
}

/// A named root goes before everything else, and neither it nor the working directory
/// is ever climbed from: whatever the file system answers, every state and the
/// selection itself keep to that.
pub proof fn roots_have_precedence_and_never_climb(
    request: CliRequest,
    cwd: Seq<u8>,
    state: StateView,
    answer: PathAnswer,
)
    ensures
        started(cwd) matches StepOutcome::Ask(first) ==> keeps_precedence(request, first),
        keeps_precedence(request, state) ==> match followed_by(request, state, answer) {
            StepOutcome::Ask(next) => keeps_precedence(request, next),
            StepOutcome::Selected { root, source, provenance } => {
                &&& named_root(request) is Some ==> provenance == SelectionProvenance::RootArgument
                    && source is None
                &&& named_root(request) is None && named_path(request) is None ==> provenance
                    == SelectionProvenance::CurrentDirectory && source is None
            },
            _ => true,
        },
{
}

/// A link on the way to a working directory, a target or a root is refused, whatever
/// it leads to.
pub proof fn links_are_refused(request: CliRequest, state: StateView, answer: PathAnswer)
    requires
        state.stage == SelectionStage::CheckCwd || state.stage == SelectionStage::CheckTarget
            || state.stage == SelectionStage::CheckRoot,
        answer.kind == Ok::<FileKind, String>(FileKind::Symlink),
    ensures
        followed_by(request, state, answer) == (StepOutcome::Symlink {
            path: check_points(state.path)[state.place],
        }),
{
}

/// The place of a stage among the stages.
pub open spec fn stage_order(stage: SelectionStage) -> nat {
    match stage {
        SelectionStage::CheckCwd => 0,
        SelectionStage::StatCwd => 1,
        SelectionStage::CanonicalizeCwd => 2,
        SelectionStage::CheckTarget => 3,
        SelectionStage::StatTarget => 4,
        SelectionStage::CanonicalizeSource => 5,
        SelectionStage::FindMarker => 6,
        SelectionStage::CheckRoot => 7,
        SelectionStage::CanonicalizeRoot => 8,
    }
}

/// A selection ends: whatever the answers are, each leads to a later stage, or to the
/// next of the places that the stage counts for its path.
pub proof fn selections_end(request: CliRequest, state: StateView, answer: PathAnswer)
    requires
        state_ok(state),
    ensures
        followed_by(request, state, answer) matches StepOutcome::Ask(next) ==> state_ok(next) && (
        stage_order(next.stage) > stage_order(state.stage) || (next.stage == state.stage
            && next.path == state.path && next.place == state.place + 1)),
{
    questions_can_be_asked(request, state, answer);
}

} // verus!
