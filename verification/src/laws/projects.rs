//! Laws of projects: which paths belong to one, and which root is selected.

use vstd::prelude::*;
use vstd::string::*;
use vstd::utf8::*;
use crate::cache::location::path_join;
use crate::commands::shared::normalized;
use crate::error::CliError;
use crate::graph::{IdView, PackageView};
use crate::package_assignment::apply::{facts_packaged, is_packaged, selected_package};
use crate::package_assignment::types::SourcePackageAssignment;
use crate::project::manifest::{is_marker, marks, name_matches, star_at, DirectoryEntry};
use crate::project::native::{
    component_views, first_component_fault, is_native_reading, names_a_dot, slashed, ComponentView,
    NativePath, Platform, BACKSLASH,
};
use crate::project::path::{
    after_steps, has_dot_name, has_no_slash, is_absolute, is_dot_name, is_idle, is_within, joined,
    lemma_filter_all, lemma_joined_nonempty, lemma_segments_nonempty, lemma_segments_of_joined,
    lemma_segments_plain, lemma_segments_slash, names, rejection, remainder, segments, steps,
    trim_back, trim_front, ProjectPath, DOT, SLASH,
};
use crate::project::select::{
    ancestors, checking, followed_by, prefix_path, targeted, FileKind, PathAnswer,
    SelectionProvenance, SelectionStage, StateView, StepOutcome,
};
use crate::request::{CliRequest, CommandRequest};

verus! {

/// A name that a path can have: it is not empty, holds no slash, and is neither `.` nor `..`.
pub open spec fn is_name(s: Seq<u8>) -> bool {
    s.len() > 0 && has_no_slash(s) && s != seq![DOT] && s != seq![DOT, DOT]
}

/// All of them are names.
pub open spec fn are_names(parts: Seq<Seq<u8>>) -> bool {
    forall|i: int| 0 <= i < parts.len() ==> is_name(#[trigger] parts[i])
}

proof fn lemma_names_of_joined(parts: Seq<Seq<u8>>)
    requires
        parts.len() > 0,
        are_names(parts),
    ensures
        segments(joined(parts)) == parts,
        names(joined(parts)) == parts,
{
    assert forall|i: int| 0 <= i < parts.len() implies has_no_slash(#[trigger] parts[i]) by {
        assert(is_name(parts[i]));
    }
    lemma_segments_of_joined(parts);
    assert forall|i: int| 0 <= i < parts.len() implies (|s: Seq<u8>| s.len() > 0)(
        #[trigger] parts[i],
    ) by {
        assert(is_name(parts[i]));
    }
    lemma_filter_all(parts, |s: Seq<u8>| s.len() > 0);
}

/// A path of names is accepted as it is, as long as it is a text.
pub proof fn paths_of_names_are_accepted(parts: Seq<Seq<u8>>)
    requires
        parts.len() > 0,
        are_names(parts),
        valid_utf8(joined(parts)),
    ensures
        rejection(joined(parts)) is None,
        joined(names(joined(parts))) == joined(parts),
{
    lemma_names_of_joined(parts);
    assert forall|i: int| 0 <= i < parts.len() implies (#[trigger] parts[i]).len() > 0 by {
        assert(is_name(parts[i]));
    }
    lemma_joined_nonempty(parts);
    assert(is_name(parts[0]));
    assert(!has_dot_name(joined(parts))) by {
        assert forall|i: int| 0 <= i < parts.len() implies !is_dot_name(#[trigger] parts[i]) by {
            assert(is_name(parts[i]));
        }
    }
}

/// A slash more does not matter: it is no part of the normal form, neither between two names
/// nor at the end.
pub proof fn repeated_slashes_do_not_matter(a: Seq<u8>, b: Seq<u8>)
    ensures
        names(a.push(SLASH).push(SLASH) + b) == names(a.push(SLASH) + b),
        names(a.push(SLASH)) == names(a),
{
    let p = |s: Seq<u8>| s.len() > 0;
    lemma_segments_slash(a.push(SLASH), b);
    lemma_segments_slash(a, b);
    lemma_segments_slash(a, Seq::empty());
    lemma_segments_plain(Seq::empty());
    assert(a.push(SLASH) + Seq::<u8>::empty() =~= a.push(SLASH));
    let x = segments(a);
    let y = segments(b);
    let e = seq![Seq::<u8>::empty()];
    assert(segments(a.push(SLASH)) == x + e);
    assert(segments(a.push(SLASH).push(SLASH) + b) == x + e + y);
    Seq::filter_distributes_over_add(x + e, y, p);
    Seq::filter_distributes_over_add(x, e, p);
    Seq::filter_distributes_over_add(x, y, p);
    reveal_with_fuel(Seq::filter, 2);
    assert(e.drop_last() =~= Seq::<Seq<u8>>::empty());
    assert(e.filter(p) =~= Seq::<Seq<u8>>::empty());
    assert(x.filter(p) + Seq::<Seq<u8>>::empty() =~= x.filter(p));
}

/// A path that is empty, that begins at the root directory, that climbs, or that stays where it
/// is, is refused wherever it does so.
pub proof fn paths_that_leave_their_place_are_refused(a: Seq<u8>, b: Seq<u8>)
    ensures
        rejection(Seq::empty()) is Some,
        rejection(seq![SLASH] + b) is Some,
        rejection(seq![DOT, DOT]) is Some,
        rejection(seq![DOT]) is Some,
        rejection(seq![DOT, DOT].push(SLASH) + b) is Some,
        rejection(seq![DOT].push(SLASH) + b) is Some,
        rejection(a.push(SLASH) + seq![DOT, DOT]) is Some,
        rejection(a.push(SLASH) + seq![DOT]) is Some,
        rejection(a.push(SLASH) + seq![DOT, DOT].push(SLASH) + b) is Some,
        rejection(a.push(SLASH) + seq![DOT].push(SLASH) + b) is Some,
{
    let up = seq![DOT, DOT];
    let stay = seq![DOT];
    lemma_segments_plain(up);
    lemma_segments_plain(stay);
    lemma_segments_nonempty(a);
    lemma_dot_in_front(up, b);
    lemma_dot_in_front(stay, b);
    lemma_dot_behind(a, up);
    lemma_dot_behind(a, stay);
    lemma_dot_between(a, up, b);
    lemma_dot_between(a, stay, b);
    assert(segments(up)[0] == up);
    assert(segments(stay)[0] == stay);
    assert((seq![SLASH] + b)[0] == SLASH);
}

proof fn lemma_dot_in_front(dot: Seq<u8>, b: Seq<u8>)
    requires
        is_dot_name(dot),
        segments(dot) == seq![dot],
    ensures
        has_dot_name(dot.push(SLASH) + b),
{
    lemma_segments_slash(dot, b);
    assert(segments(dot.push(SLASH) + b)[0] == dot);
}

proof fn lemma_dot_behind(a: Seq<u8>, dot: Seq<u8>)
    requires
        is_dot_name(dot),
        segments(dot) == seq![dot],
    ensures
        has_dot_name(a.push(SLASH) + dot),
{
    lemma_segments_slash(a, dot);
    assert(segments(a.push(SLASH) + dot)[segments(a).len() as int] == dot);
}

proof fn lemma_dot_between(a: Seq<u8>, dot: Seq<u8>, b: Seq<u8>)
    requires
        is_dot_name(dot),
        segments(dot) == seq![dot],
    ensures
        has_dot_name(a.push(SLASH) + dot.push(SLASH) + b),
{
    let front = a.push(SLASH) + dot;
    assert(a.push(SLASH) + dot.push(SLASH) + b =~= front.push(SLASH) + b);
    lemma_segments_slash(front, b);
    lemma_segments_slash(a, dot);
    let all = segments(front.push(SLASH) + b);
    assert(all[segments(a).len() as int] == dot);
}

/// The absolute path of names.
pub open spec fn absolute_path(parts: Seq<Seq<u8>>) -> Seq<u8> {
    seq![SLASH] + joined(parts)
}

proof fn lemma_absolute(parts: Seq<Seq<u8>>)
    requires
        are_names(parts),
    ensures
        steps(segments(absolute_path(parts))) == parts,
        is_absolute(absolute_path(parts)),
        parts.len() > 0 ==> segments(absolute_path(parts)) == seq![Seq::<u8>::empty()] + parts,
{
    let e = Seq::<u8>::empty();
    assert(absolute_path(parts) =~= e.push(SLASH) + joined(parts));
    lemma_segments_slash(e, joined(parts));
    lemma_segments_plain(e);
    let p = |s: Seq<u8>| !is_idle(s);
    if parts.len() > 0 {
        lemma_names_of_joined(parts);
        let all = seq![e] + parts;
        Seq::filter_distributes_over_add(seq![e], parts, p);
        reveal_with_fuel(Seq::filter, 2);
        assert(seq![e].drop_last() =~= Seq::<Seq<u8>>::empty());
        assert(seq![e].filter(p) =~= Seq::<Seq<u8>>::empty());
        assert forall|i: int| 0 <= i < parts.len() implies p(#[trigger] parts[i]) by {
            assert(is_name(parts[i]));
        }
        lemma_filter_all(parts, p);
        assert(Seq::<Seq<u8>>::empty() + parts =~= parts);
        assert(steps(all) == all.filter(p));
    } else {
        reveal_with_fuel(Seq::filter, 3);
        let all = seq![e] + seq![e];
        assert(joined(parts) =~= e);
        assert(segments(absolute_path(parts)) == all);
        assert(all.drop_last() =~= seq![e]);
        assert(seq![e].drop_last() =~= Seq::<Seq<u8>>::empty());
        assert(steps(all) =~= parts);
    }
}

proof fn lemma_after_names(parts: Seq<Seq<u8>>, n: nat)
    requires
        are_names(parts),
        n <= parts.len(),
    ensures
        after_steps(parts, n) == parts.skip(n as int),
    decreases n,
{
    if n > 0 {
        assert(is_name(parts[0]));
        let rest = parts.drop_first();
        assert forall|i: int| 0 <= i < rest.len() implies is_name(#[trigger] rest[i]) by {
            assert(rest[i] == parts[i + 1]);
        }
        lemma_after_names(rest, (n - 1) as nat);
        assert(rest.skip(n - 1) =~= parts.skip(n as int));
    } else {
        assert(parts.skip(0) =~= parts);
    }
}

/// A source lies in a root exactly if the names of the root are the first names of the source:
/// it is not enough that its path begins with the same letters. What is left of it are its
/// other names.
pub proof fn sources_lie_in_roots_by_whole_names(root: Seq<Seq<u8>>, source: Seq<Seq<u8>>)
    requires
        are_names(root),
        are_names(source),
    ensures
        is_within(absolute_path(root), absolute_path(source)) <==> root.len() <= source.len()
            && source.take(root.len() as int) == root,
        is_within(absolute_path(root), absolute_path(source)) && root.len() > 0 && root.len()
            < source.len() ==> remainder(absolute_path(root), absolute_path(source)) == joined(
            source.skip(root.len() as int),
        ),
{
    lemma_absolute(root);
    lemma_absolute(source);
    if root.len() > 0 && root.len() < source.len() {
        lemma_remainder(root, source);
    }
}

proof fn lemma_remainder(root: Seq<Seq<u8>>, source: Seq<Seq<u8>>)
    requires
        are_names(root),
        are_names(source),
        0 < root.len() < source.len(),
    ensures
        remainder(absolute_path(root), absolute_path(source)) == joined(
            source.skip(root.len() as int),
        ),
{
    lemma_absolute(root);
    lemma_absolute(source);
    lemma_after_absolute(source, root.len());
    lemma_trimmed(source, root.len() as int);
}

proof fn lemma_trimmed(source: Seq<Seq<u8>>, n: int)
    requires
        are_names(source),
        0 <= n < source.len(),
    ensures
        trim_back(trim_front(source.skip(n))) == source.skip(n),
{
    let rest = source.skip(n);
    assert(rest[0] == source[n]);
    assert(is_name(source[n]));
    assert(!is_idle(rest[0]));
    assert(rest.last() == source[source.len() - 1]);
    assert(is_name(source[source.len() - 1]));
    assert(!is_idle(rest.last()));
}

proof fn lemma_after_absolute(source: Seq<Seq<u8>>, n: nat)
    requires
        are_names(source),
        0 < n < source.len(),
    ensures
        after_steps(seq![Seq::<u8>::empty()] + source, n) == source.skip(n as int),
{
    let all = seq![Seq::<u8>::empty()] + source;
    assert(all[0] == Seq::<u8>::empty());
    assert(is_idle(all[0]));
    assert(all.drop_first() =~= source);
    lemma_after_names(source, n);
}

proof fn lemma_prefix(parts: Seq<Seq<u8>>, n: int)
    requires
        are_names(parts),
        0 <= n <= parts.len(),
    ensures
        prefix_path(parts, n) == absolute_path(parts.take(n)),
        prefix_path(parts, n).len() > 0,
        n > 0 ==> prefix_path(parts, n).last() != SLASH,
    decreases n,
{
    if n > 0 {
        lemma_prefix(parts, n - 1);
        let some = parts.take(n);
        assert(is_name(parts[n - 1]));
        assert(some.drop_last() =~= parts.take(n - 1));
        assert(some.last() == parts[n - 1]);
        let before = prefix_path(parts, n - 1);
        let name = parts[n - 1];
        assert(name[name.len() - 1] != SLASH);
        if n == 1 {
            assert(parts.take(0) =~= Seq::<Seq<u8>>::empty());
            assert(before =~= seq![SLASH]);
            assert(joined(some) == name);
            assert(prefix_path(parts, n) =~= absolute_path(some));
        } else {
            assert(prefix_path(parts, n) =~= absolute_path(some));
        }
        assert(prefix_path(parts, n).last() == name[name.len() - 1]);
    } else {
        assert(parts.take(0) =~= Seq::<Seq<u8>>::empty());
        assert(absolute_path(parts.take(0)) =~= seq![SLASH]);
    }
}

/// The directories above a file are those of its first names, the nearest first and the root
/// directory last; the file itself is not among them.
pub proof fn directories_above_are_the_nearest_first(parts: Seq<Seq<u8>>, k: int)
    requires
        are_names(parts),
    ensures
        ancestors(absolute_path(parts)).len() == parts.len(),
        0 <= k < parts.len() ==> ancestors(absolute_path(parts))[k] == absolute_path(
            parts.take(parts.len() - 1 - k),
        ),
{
    lemma_absolute(parts);
    if 0 <= k < parts.len() {
        lemma_prefix(parts, parts.len() - 1 - k);
    }
}

/// The search for a manifest goes upwards and stops at the first directory that has one, which
/// is then the root; where none has, the root is the directory of the file itself.
pub proof fn the_nearest_manifest_is_the_root(
    request: CliRequest,
    state: StateView,
    answer: PathAnswer,
)
    requires
        state.stage == SelectionStage::FindMarker,
        0 <= state.place < ancestors(state.path).len(),
    ensures
        ({
            let next = followed_by(request, state, answer);
            let found = exists|i: int| 0 <= i < answer.entries@.len() && marks(#[trigger] answer.entries@[i]);
            &&& found ==> next == checking(
                SelectionStage::CheckRoot,
                ancestors(state.path)[state.place],
                state.source,
                SelectionProvenance::IndexFileManifest,
            )
            &&& !found && state.place + 1 < ancestors(state.path).len() ==> (next matches
                StepOutcome::Ask(s) && s.stage == SelectionStage::FindMarker && s.path
                == state.path && s.place == state.place + 1 && s.source == state.source)
            &&& !found && state.place + 1 == ancestors(state.path).len() ==> next == checking(
                SelectionStage::CheckRoot,
                ancestors(state.path)[0],
                state.source,
                SelectionProvenance::IndexFileParent,
            )
        }),
{
}

/// A selection ends only where a canonical root was found, with the source that it came from,
/// and says why. A root argument or a working directory that is no directory is refused; only
/// the path of an index may be a file.
pub proof fn roots_are_directories(request: CliRequest, state: StateView, answer: PathAnswer)
    ensures
        ({
            let next = followed_by(request, state, answer);
            &&& next is Selected <==> state.stage == SelectionStage::CanonicalizeRoot
                && answer.canonical is Ok
            &&& next matches StepOutcome::Selected { root, source, provenance } ==> root
                == answer.canonical->Ok_0@ && source == state.source && provenance
                == state.provenance
            &&& state.stage == SelectionStage::StatCwd && answer.kind != Ok::<FileKind, String>(
                FileKind::Directory,
            ) ==> next is BadPath
            &&& state.stage == SelectionStage::StatTarget && state.provenance
                != SelectionProvenance::IndexDirectory && answer.kind != Ok::<FileKind, String>(
                FileKind::Directory,
            ) ==> next is BadPath
            &&& state.stage == SelectionStage::StatTarget && state.provenance
                == SelectionProvenance::IndexDirectory && answer.kind == Ok::<FileKind, String>(
                FileKind::File,
            ) ==> (next matches StepOutcome::Ask(s) && s.stage
                == SelectionStage::CanonicalizeSource && s.path == state.path)
            &&& state.stage == SelectionStage::StatTarget && (answer.kind == Ok::<FileKind, String>(
                FileKind::Other,
            ) || answer.kind == Ok::<FileKind, String>(FileKind::Symlink) || answer.kind is Err)
                ==> next is BadPath
            &&& state.stage == SelectionStage::StatTarget && answer.kind == Ok::<FileKind, String>(
                FileKind::Directory,
            ) ==> next == checking(SelectionStage::CheckRoot, state.path, None, state.provenance)
        }),
{
}

/// A root that is named goes before a path to index, and that before the working directory; a
/// path that is not absolute is taken from the working directory.
pub proof fn named_roots_come_first(request: CliRequest, cwd: Seq<u8>, next: StateView)
    requires
        targeted(request, cwd) == StepOutcome::Ask(next),
    ensures
        request.global.root matches Some(root) ==> next.provenance
            == SelectionProvenance::RootArgument && next.path == (if root@.len() > 0 && root@[0]
            == SLASH {
            root@
        } else {
            path_join(cwd, root@)
        }),
        request.global.root is None ==> (request.command matches CommandRequest::Index {
            path: Some(path),
            ..
        } ==> next.provenance == SelectionProvenance::IndexDirectory && next.path == (if path@.len()
            > 0 && path@[0] == SLASH {
            path@
        } else {
            path_join(cwd, path@)
        })),
        request.global.root is None && !(request.command is Index) ==> next.provenance
            == SelectionProvenance::CurrentDirectory,
{
}

/// A name that begins and ends as a pattern with a star says is matched, whatever stands
/// between, and no shorter one is.
pub proof fn patterns_match_what_begins_and_ends_so(
    front: Seq<char>,
    back: Seq<char>,
    middle: Seq<char>,
)
    requires
        !front.contains('*'),
    ensures
        name_matches(front + "*"@ + back, front + middle + back),
{
    reveal_strlit("*");
    let pattern = front + "*"@ + back;
    let name = front + middle + back;
    let n = front.len() as int;
    assert(pattern[n] == '*');
    assert(pattern.contains('*'));
    assert forall|i: int| 0 <= i < n implies pattern[i] != '*' by {
        assert(pattern[i] == front[i]);
        assert(front.contains(front[i]));
    }
    assert(star_at(pattern, n));
    assert(pattern.take(n) =~= front);
    assert(name.take(n) =~= front);
    assert(pattern.skip(n + 1) =~= back);
    assert(name.skip(name.len() - back.len()) =~= back);
}

/// Only an ordinary file marks a directory, and only by its name.
pub proof fn only_files_mark_directories(entry: DirectoryEntry)
    ensures
        marks(entry) ==> entry.is_file && entry.name is Some && is_marker(entry.name->0@),
        entry.is_file && entry.name is Some && is_marker(entry.name->0@) ==> marks(entry),
{
}

/// The first assignment of a file's path decides its package.
pub proof fn the_first_assignment_decides(
    assignments: Seq<SourcePackageAssignment>,
    file: Seq<char>,
    i: int,
)
    requires
        0 <= i < assignments.len(),
        assignments[i].source_path@ == file,
        forall|j: int| 0 <= j < i ==> (#[trigger] assignments[j]).source_path@ != file,
    ensures
        selected_package(assignments, file) == assignments[i].package,
    decreases i,
{
    if i > 0 {
        assert(assignments[0].source_path@ != file);
        let rest = assignments.drop_first();
        assert forall|j: int| 0 <= j < i - 1 implies (#[trigger] rest[j]).source_path@ != file by {
            assert(rest[j] == assignments[j + 1]);
        }
        the_first_assignment_decides(rest, file, i - 1);
    }
}

/// A package is given to every symbol that the whole project can see and that has none yet, and
/// to no other: one that has a package keeps it, and one of a single file stays its own.
pub proof fn packages_are_given_where_none_is(
    before: crate::graph::FileFacts,
    after: crate::graph::FileFacts,
    p: PackageView,
    i: int,
)
    requires
        facts_packaged(before, after, p),
        0 <= i < before.symbols@.len(),
    ensures
        after.symbols@.len() == before.symbols@.len(),
        before.symbols@[i].id@ is Local ==> after.symbols@[i].id@ == before.symbols@[i].id@,
        before.symbols@[i].id@ matches IdView::Global { package, language, descriptors } ==> (
        after.symbols@[i].id@ matches IdView::Global {
            package: given,
            language: l,
            descriptors: d,
        } && l == language && d == descriptors && (package is Some ==> given == package) && (
        package is None ==> given == Some(p))),
        after.symbols@[i].name == before.symbols@[i].name,
        after.symbols@[i].kind == before.symbols@[i].kind,
        after.symbols@[i].span == before.symbols@[i].span,
        after.references == before.references,
{
    assert(is_packaged(before.symbols@[i], after.symbols@[i], p));
}

/// The paths that a query compares are normal forms: two spellings of a project path that
/// differ in repeated slashes only are the same file to it.
pub proof fn spellings_of_a_path_are_one_file(a: Seq<char>, b: Seq<char>)
    requires
        rejection(encode_utf8(a)) is None,
        rejection(encode_utf8(b)) is None,
        names(encode_utf8(a)) == names(encode_utf8(b)),
    ensures
        normalized(a) == normalized(b),
{
}

/// A path that is in its normal form stays as it is, and so does a text that is no project path.
pub proof fn normal_forms_stay(a: Seq<char>)
    ensures
        rejection(encode_utf8(a)) is Some ==> normalized(a) == a,
        rejection(encode_utf8(a)) is None && joined(names(encode_utf8(a))) == encode_utf8(a)
            ==> normalized(a) == a,
{
    encode_utf8_decode_utf8(a);
}

proof fn lemma_dots_behind_a_separator(a: Seq<u8>, separator: u8, dot: Seq<u8>, b: Seq<u8>)
    requires
        separator == SLASH || separator == BACKSLASH,
        is_dot_name(dot),
        segments(dot) == seq![dot],
        forall|i: int| 0 <= i < dot.len() ==> #[trigger] dot[i] != BACKSLASH,
    ensures
        has_dot_name(slashed(a.push(separator) + dot)),
        has_dot_name(slashed(a.push(separator) + dot.push(separator) + b)),
        has_dot_name(slashed(dot.push(separator) + b)),
        has_dot_name(slashed(dot)),
{
    let x = slashed(a);
    let y = slashed(b);
    assert(slashed(dot) =~= dot);
    assert(segments(dot)[0] == dot);
    assert(slashed(a.push(separator) + dot) =~= x.push(SLASH) + dot);
    assert(slashed(a.push(separator) + dot.push(separator) + b) =~= x.push(SLASH) + dot.push(SLASH)
        + y);
    assert(slashed(dot.push(separator) + b) =~= dot.push(SLASH) + y);
    lemma_segments_nonempty(x);
    lemma_dot_in_front(dot, y);
    lemma_dot_behind(x, dot);
    lemma_dot_between(x, dot, y);
}

/// On a platform with two separators, neither of them hides a step out of its place or one that
/// stays.
pub proof fn both_separators_are_seen(
    a: Seq<u8>,
    separator: u8,
    b: Seq<u8>,
    spelled: Seq<u8>,
    absolute: bool,
    components: Seq<ComponentView>,
    p: ProjectPath,
)
    requires
        separator == SLASH || separator == BACKSLASH,
        spelled == a.push(separator) + seq![DOT, DOT] || spelled == a.push(separator) + seq![DOT]
            || spelled == a.push(separator) + seq![DOT, DOT].push(separator) + b || spelled
            == a.push(separator) + seq![DOT].push(separator) + b || spelled == seq![DOT, DOT].push(
            separator,
        ) + b || spelled == seq![DOT].push(separator) + b || spelled == seq![DOT, DOT] || spelled
            == seq![DOT],
    ensures
        !is_native_reading(Platform::Windows, spelled, absolute, components, Ok(p)),
{
    lemma_segments_plain(seq![DOT, DOT]);
    lemma_segments_plain(seq![DOT]);
    lemma_dots_behind_a_separator(a, separator, seq![DOT, DOT], b);
    lemma_dots_behind_a_separator(a, separator, seq![DOT], b);
}

/// A native path is accepted only where it is relative and every part of it is a name that is a
/// text: no root, no volume, and no step up or nowhere.
pub proof fn native_paths_are_made_of_names(
    platform: Platform,
    spelled: Seq<u8>,
    absolute: bool,
    components: Seq<ComponentView>,
    p: ProjectPath,
    i: int,
)
    requires
        is_native_reading(platform, spelled, absolute, components, Ok(p)),
        0 <= i < components.len(),
    ensures
        spelled.len() > 0,
        !absolute,
        components[i] matches ComponentView::Normal(name) && valid_utf8(name),
    decreases components.len(),
{
    lemma_every_part_is_a_name(components, i);
}

proof fn lemma_every_part_is_a_name(components: Seq<ComponentView>, i: int)
    requires
        first_component_fault(components) is None,
        0 <= i < components.len(),
    ensures
        components[i] matches ComponentView::Normal(name) && valid_utf8(name),
    decreases components.len(),
{
    if i < components.len() - 1 {
        lemma_every_part_is_a_name(components.drop_last(), i);
    }
}

proof fn lemma_names_have_no_fault(parts: Seq<Seq<u8>>, components: Seq<ComponentView>)
    requires
        components.len() == parts.len(),
        forall|i: int|
            0 <= i < parts.len() ==> #[trigger] components[i] == ComponentView::Normal(parts[i])
                && valid_utf8(parts[i]),
    ensures
        first_component_fault(components) is None,
    decreases parts.len(),
{
    if parts.len() > 0 {
        lemma_names_have_no_fault(parts.drop_last(), components.drop_last());
        assert(components.last() == components[components.len() - 1]);
    }
}

/// A native path of names is accepted, and its normal form has the same names with a slash
/// between neighbours, whichever separator its platform spells.
pub proof fn native_paths_of_names_are_accepted(
    platform: Platform,
    spelled: Seq<u8>,
    parts: Seq<Seq<u8>>,
    components: Seq<ComponentView>,
    r: Result<ProjectPath, CliError>,
)
    requires
        parts.len() > 0,
        are_names(parts),
        valid_utf8(joined(parts)),
        components.len() == parts.len(),
        forall|i: int|
            0 <= i < parts.len() ==> #[trigger] components[i] == ComponentView::Normal(parts[i])
                && valid_utf8(parts[i]),
        spelled.len() == joined(parts).len(),
        forall|i: int|
            0 <= i < spelled.len() ==> #[trigger] spelled[i] == joined(parts)[i] || (spelled[i]
                == BACKSLASH && joined(parts)[i] == SLASH && platform == Platform::Windows),
        platform == Platform::Windows ==> !joined(parts).contains(BACKSLASH),
        is_native_reading(platform, spelled, false, components, r),
    ensures
        r matches Ok(p) && p.bytes() == joined(parts),
{
    let whole = joined(parts);
    paths_of_names_are_accepted(parts);
    lemma_names_of_joined(parts);
    lemma_names_have_no_fault(parts, components);
    assert(components.map_values(|c: ComponentView| c->Normal_0) =~= parts);
    assert(whole.len() > 0);
    assert(!names_a_dot(platform, spelled, components)) by {
        if platform == Platform::Unix {
            assert(spelled =~= whole);
        } else if platform == Platform::Windows {
            assert forall|i: int| 0 <= i < spelled.len() implies #[trigger] slashed(spelled)[i]
                == whole[i] by {
                assert(whole.contains(whole[i]));
                assert(spelled[i] == whole[i] || spelled[i] == BACKSLASH);
            }
            assert(slashed(spelled) =~= whole);
        } else {
            assert forall|i: int| 0 <= i < components.len() implies !((
            #[trigger] components[i]) is CurDir) && !(components[i] is ParentDir) by {}
        }
    }
}

/// A source is taken only below its root, part by part: both are absolute, and the parts of the
/// root are the first parts of the source.
pub proof fn native_sources_lie_below_their_root(
    platform: Platform,
    root: NativePath,
    source: NativePath,
    rest: &[u8],
    p: ProjectPath,
    i: int,
)
    requires
        call_ensures(
            ProjectPath::from_canonical_native_source,
            (platform, &root, &source, rest),
            Ok(p),
        ),
    ensures
        root.absolute && source.absolute,
        root.components@.len() < source.components@.len(),
        0 <= i < root.components@.len() ==> source.components@[i]@ == root.components@[i]@,
{
    let outer = component_views(root.components@);
    let inner = component_views(source.components@);
    if 0 <= i < root.components@.len() {
        assert(inner.take(outer.len() as int)[i] == outer[i]);
    }
}

} // verus!
