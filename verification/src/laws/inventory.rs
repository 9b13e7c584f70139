//! Laws of inventories: which entries of a project are sources, what is read of them, and when
//! an inventory is complete.

use vstd::prelude::*;
use vstd::string::*;
use vstd::utf8::*;
use crate::cache::fingerprint::blake3_of;
use crate::cache::location::hex;
use crate::config::ResourceLimits;
use crate::graph::{base_name, extension, last_position, path_language, Language};
use crate::inventory::read::{
    bytes_total, is_inventory, is_materialized, is_read_step, is_taken, tally, BoundedRead,
    Fingerprint, InventoryState, ReadAnswer, ReadFailure, ReadResult, ReadStage, ReadStep,
};
use crate::inventory::types::{
    FileClassification, InventoryCompleteness, InventoryFile, MaterializedCandidate, OmissionImpact,
    OmissionReason, OmittedFile, SourceCandidate, SourceDiscovery, SourceInventory,
};
use crate::inventory::walk::{
    candidate_views, candidates_found, event_outcome, is_discovery, is_hidden, is_ignore_file,
    left_out_views, omissions_found, EntryKind, EventOutcome, LeftOut, WalkEvent,
};
use crate::ordering::{is_stable_sort, key_le, key_order_is_total, Keyed};
use crate::project::path::{joined, names, rejection};
use crate::text::text_lt;

verus! {

proof fn lemma_last_position(s: Seq<char>, c: char, p: int)
    requires
        0 <= p < s.len(),
        s[p] == c,
        forall|i: int| p < i < s.len() ==> #[trigger] s[i] != c,
    ensures
        last_position(s, c) == Some(p),
    decreases s.len(),
{
    if p < s.len() - 1 {
        assert(s[s.len() - 1] != c);
        let rest = s.drop_last();
        assert forall|i: int| p < i < rest.len() implies #[trigger] rest[i] != c by {
            assert(rest[i] == s[i]);
        }
        lemma_last_position(rest, c, p);
    }
}

proof fn lemma_last_position_is(s: Seq<char>, c: char)
    ensures
        match last_position(s, c) {
            Some(p) => 0 <= p < s.len() && s[p] == c && forall|i: int|
                p < i < s.len() ==> #[trigger] s[i] != c,
            None => forall|i: int| 0 <= i < s.len() ==> #[trigger] s[i] != c,
        },
    decreases s.len(),
{
    if s.len() > 0 && s.last() != c {
        let rest = s.drop_last();
        lemma_last_position_is(rest, c);
        assert forall|i: int| 0 <= i < rest.len() implies #[trigger] rest[i] == s[i] by {}
        match last_position(s, c) {
            Some(p) => {
                assert forall|i: int| p < i < s.len() implies #[trigger] s[i] != c by {
                    if i < rest.len() {
                        assert(rest[i] != c);
                    }
                }
            },
            None => {
                assert forall|i: int| 0 <= i < s.len() implies #[trigger] s[i] != c by {
                    if i < rest.len() {
                        assert(rest[i] != c);
                    }
                }
            },
        }
    }
}

/// A path that ends in a name and an extension.
proof fn lemma_extension(s: Seq<char>, e: Seq<char>)
    requires
        s.len() > 0,
        s.last() != '/',
        forall|i: int| 0 <= i < e.len() ==> #[trigger] e[i] != '/' && e[i] != '.',
    ensures
        extension(s + "."@ + e) == Some(e),
{
    reveal_strlit(".");
    let path = s + "."@ + e;
    let n = s.len() as int;
    assert(path[n] == '.');
    assert forall|i: int| n < i < path.len() implies #[trigger] path[i] == e[i - n - 1] by {}
    lemma_last_position_is(path, '/');
    let name = base_name(path);
    match last_position(path, '/') {
        Some(p) => {
            if p > n {
                assert(path[p] == e[p - n - 1]);
            }
            assert(p < n - 1) by {
                if p == n - 1 {
                    assert(path[n - 1] == s[n - 1]);
                }
            }
            assert(name[n - p - 1] == '.');
            assert forall|i: int| n - p - 1 < i < name.len() implies #[trigger] name[i] != '.' by {
                assert(name[i] == path[p + 1 + i]);
                assert(path[p + 1 + i] == e[p + 1 + i - n - 1]);
            }
            lemma_last_position(name, '.', n - p - 1);
            assert(name.skip(n - p) =~= e);
        },
        None => {
            assert forall|i: int| n < i < name.len() implies #[trigger] name[i] != '.' by {
                assert(path[i] == e[i - n - 1]);
            }
            lemma_last_position(name, '.', n);
            assert(name.skip(n + 1) =~= e);
        },
    }
}

/// The extension of a file tells its language, whatever its name and its directory: Rust,
/// Python, TypeScript, JavaScript, Go and SQL.
pub proof fn extensions_tell_languages(s: Seq<char>)
    requires
        s.len() > 0,
        s.last() != '/',
    ensures
        path_language(s + "."@ + "rs"@) == Some(Language::Rust),
        path_language(s + "."@ + "py"@) == Some(Language::Python),
        path_language(s + "."@ + "ts"@) == Some(Language::TypeScript),
        path_language(s + "."@ + "tsx"@) == Some(Language::TypeScript),
        path_language(s + "."@ + "js"@) == Some(Language::JavaScript),
        path_language(s + "."@ + "jsx"@) == Some(Language::JavaScript),
        path_language(s + "."@ + "mjs"@) == Some(Language::JavaScript),
        path_language(s + "."@ + "go"@) == Some(Language::Go),
        path_language(s + "."@ + "sql"@) == Some(Language::Sql),
{
    reveal_strlit("rs");
    reveal_strlit("py");
    reveal_strlit("ts");
    reveal_strlit("tsx");
    reveal_strlit("js");
    reveal_strlit("jsx");
    reveal_strlit("mjs");
    reveal_strlit("go");
    reveal_strlit("sql");
    lemma_extension(s, "rs"@);
    lemma_extension(s, "py"@);
    lemma_extension(s, "ts"@);
    lemma_extension(s, "tsx"@);
    lemma_extension(s, "js"@);
    lemma_extension(s, "jsx"@);
    lemma_extension(s, "mjs"@);
    lemma_extension(s, "go"@);
    lemma_extension(s, "sql"@);
    assert("py"@[0] != "rs"@[0]);
    assert("ts"@[0] != "rs"@[0] && "ts"@[0] != "py"@[0]);
    assert("js"@[0] == 'j' && "jsx"@[0] == 'j' && "mjs"@[0] == 'm' && "go"@[0] == 'g'
        && "sql"@[0] == 's' && "tsx"@[0] == 't' && "rs"@[0] == 'r' && "py"@[0] == 'p'
        && "ts"@[0] == 't');
}

/// A file is of a language only by its extension: a path without a full stop in its last name
/// is of none.
pub proof fn other_paths_are_of_no_language(s: Seq<char>)
    requires
        !s.contains('.'),
    ensures
        path_language(s) is None,
{
    lemma_last_position_is(s, '/');
    let name = base_name(s);
    lemma_last_position_is(name, '.');
    match last_position(name, '.') {
        Some(p) => {
            match last_position(s, '/') {
                Some(q) => {
                    assert(name[p] == s[q + 1 + p]);
                    assert(s.contains(s[q + 1 + p]));
                },
                None => {
                    assert(s.contains(s[p]));
                },
            }
        },
        None => {},
    }
}

/// The text of the path of an entry.
pub open spec fn text_of(b: Seq<u8>) -> Seq<char> {
    decode_utf8(joined(names(b)))
}

/// The entry is looked at: it is not the project itself, lies in it, has a path that a project
/// can have, is no file of rules, and is not hidden where hidden ones are left alone.
pub open spec fn is_looked_at(event: WalkEvent, include_hidden: bool) -> bool {
    &&& event is Entry
    &&& event->Entry_depth > 0
    &&& event->Entry_relative is Some
    &&& rejection(event->Entry_relative->0@) is None
    &&& !is_ignore_file(text_of(event->Entry_relative->0@))
    &&& include_hidden || !is_hidden(text_of(event->Entry_relative->0@))
}

/// What a walk meets is judged by what it is. An ordinary file that is looked at is a candidate,
/// with the size, the time and the identity that its metadata tell, and of a language exactly
/// where its extension is of one that is in use. Links, and what is neither file nor directory,
/// are left out, each for its reason; a directory is neither. What cannot be looked at is left
/// out as unreadable, and a directory that cannot be walked may always hide sources.
pub proof fn entries_are_judged_by_what_they_are(
    event: WalkEvent,
    include_hidden: bool,
    enabled: Seq<Language>,
)
    ensures
        ({
            let outcome = event_outcome(event, include_hidden, enabled);
            let looked_at = is_looked_at(event, include_hidden);
            &&& outcome is Candidate <==> looked_at && event->Entry_metadata is Ok
                && event->Entry_metadata->Ok_0.kind == EntryKind::File
            &&& outcome matches EventOutcome::Candidate(c) ==> {
                let m = event->Entry_metadata->Ok_0;
                let language = path_language(c.path);
                &&& c.path == text_of(event->Entry_relative->0@)
                &&& c.absolute_path == event->Entry_absolute_path@
                &&& c.size_bytes == m.size_bytes
                &&& c.mtime == m.mtime
                &&& c.identity == m.identity
                &&& c.language is Some <==> language is Some && enabled.contains(language->0)
                &&& c.language is Some ==> c.language == language && c.classification
                    == FileClassification::Enabled(language->0)
                &&& language is Some && !enabled.contains(language->0) ==> c.classification
                    == FileClassification::FeatureDisabled(language->0)
                &&& language is None ==> c.classification
                    == FileClassification::UnrecognizedExtension
            }
            &&& outcome is Refused <==> event is Entry && event->Entry_depth > 0
                && event->Entry_relative is Some && rejection(event->Entry_relative->0@) is Some
            &&& looked_at && event->Entry_metadata is Err ==> (outcome matches
                EventOutcome::Omission(o) && o.reason == (OmissionReason::ReadError {
                kind: event->Entry_metadata->Err_0,
            }))
            &&& looked_at && event->Entry_metadata is Ok ==> {
                let kind = event->Entry_metadata->Ok_0.kind;
                &&& kind == EntryKind::Link ==> (outcome matches EventOutcome::Omission(o)
                    && o.reason == OmissionReason::SymlinkFile)
                &&& kind == EntryKind::DirectoryLink ==> (outcome matches EventOutcome::Omission(o)
                    && o.reason == OmissionReason::SymlinkDirectory)
                &&& kind == EntryKind::Other ==> (outcome matches EventOutcome::Omission(o)
                    && o.reason == OmissionReason::NotRegularFile)
                &&& kind == EntryKind::Directory ==> outcome is Nothing
            }
            &&& looked_at ==> (outcome matches EventOutcome::Omission(o) ==> o.path == text_of(
                event->Entry_relative->0@,
            ) && (o.impact == OmissionImpact::IncompleteSourceSet <==> path_language(o.path)
                is Some))
            &&& event is Entry && !looked_at ==> outcome is Nothing || outcome is Refused
            &&& event matches WalkEvent::Failed { relative, kind } ==> (relative is Some
                && rejection(relative->0@) is None ==> outcome == EventOutcome::Omission(
                LeftOut {
                    path: text_of(relative->0@),
                    reason: OmissionReason::ReadError { kind },
                    impact: OmissionImpact::IncompleteSourceSet,
                },
            ))
        }),
{
}

/// A name that begins with a full stop hides its path, wherever it stands, and nothing else
/// does.
pub proof fn names_with_a_leading_stop_are_hidden(directory: Seq<char>, name: Seq<char>)
    requires
        name.len() > 0,
        name[0] == '.',
    ensures
        is_hidden(name),
        is_hidden(directory + "/"@ + name),
{
    reveal_strlit("/");
    assert(name[0] == '.');
    let path = directory + "/"@ + name;
    let n = directory.len() as int;
    assert(path[n] == '/' && path[n + 1] == '.');
}

/// What is read of a candidate becomes a file exactly where it is of a language, could be read,
/// and is a text; the file has just these bytes, their text and their digest. Otherwise the
/// candidate is left out, for the reason that holds.
pub proof fn files_are_what_was_read(
    c: SourceCandidate,
    max_file_bytes: usize,
    read: ReadResult,
    m: MaterializedCandidate,
)
    requires
        is_materialized(c, max_file_bytes, read, m),
    ensures
        m is File <==> c.language is Some && read is Ok && valid_utf8(read->Ok_0.0@),
        m matches MaterializedCandidate::File(f) ==> f.path == c.path && Some(f.language)
            == c.language && f.bytes@ == read->Ok_0.0@ && f.text@ == decode_utf8(f.bytes@)
            && f.blake3@ == hex(blake3_of(f.bytes@)) && f.mtime == read->Ok_0.1.mtime,
        m matches MaterializedCandidate::Omitted(o) ==> {
            &&& o.path == c.path
            &&& o.impact == OmissionImpact::IncompleteSourceSet <==> path_language(c.path@) is Some
            &&& o.reason == OmissionReason::InvalidUtf8 <==> c.language is Some && read is Ok
            &&& o.reason == OmissionReason::ChangedDuringRead <==> c.language is Some && read
                == Err::<(Vec<u8>, Fingerprint), ReadFailure>(ReadFailure::Changed)
            &&& o.reason is FileTooLarge <==> c.language is Some && read == Err::<
                (Vec<u8>, Fingerprint),
                ReadFailure,
            >(ReadFailure::TooLarge)
            &&& o.reason matches OmissionReason::FileTooLarge { limit } ==> limit == max_file_bytes
            &&& o.reason is ReadError <==> c.language is Some && read is Err && read->Err_0 is Io
            &&& o.reason matches OmissionReason::ReadError { kind } ==> read->Err_0->Io_0 == kind
            &&& c.language is None ==> o.reason is FeatureDisabled || o.reason
                == OmissionReason::UnrecognizedExtension
        },
{
}

/// A read that succeeds: every answer leads to the next question, and the last to the bytes.
pub open spec fn is_whole_read(
    reads: Seq<BoundedRead>,
    answers: Seq<ReadAnswer>,
    bytes: Vec<u8>,
    fingerprint: Fingerprint,
) -> bool {
    &&& reads.len() == answers.len()
    &&& reads.len() > 0
    &&& reads[0].stage == ReadStage::PathBefore
    &&& reads[0].bytes@.len() == 0
    &&& forall|i: int| 0 <= i < reads.len() - 1 ==> #[trigger] is_asked(reads, answers, i)
    &&& is_read_step(reads.last(), answers.last(), ReadStep::Read(bytes, fingerprint))
}

/// The answer leads to the next question.
pub open spec fn is_asked(reads: Seq<BoundedRead>, answers: Seq<ReadAnswer>, i: int) -> bool {
    is_read_step(reads[i], answers[i], ReadStep::Ask(reads[i + 1]))
}

/// The pieces that were read, one after another, among the first answers.
pub open spec fn pieces(reads: Seq<BoundedRead>, answers: Seq<ReadAnswer>, n: int) -> Seq<u8>
    decreases n,
{
    if n <= 0 {
        Seq::empty()
    } else {
        pieces(reads, answers, n - 1) + if reads[n - 1].stage == ReadStage::Reading {
            answers[n - 1].chunk->Ok_0@
        } else {
            Seq::empty()
        }
    }
}

/// The file is there, is an ordinary one, and is as it was discovered.
pub open spec fn is_unchanged(answer: ReadAnswer, discovered: Fingerprint) -> bool {
    answer.stat is Ok && answer.stat->Ok_0.is_regular && answer.stat->Ok_0.fingerprint
        == discovered
}

spec fn is_stage_at(stage: ReadStage, i: int) -> bool {
    &&& i == 0 <==> stage == ReadStage::PathBefore
    &&& i == 1 <==> stage == ReadStage::HandleBefore
}

proof fn lemma_reads(
    reads: Seq<BoundedRead>,
    answers: Seq<ReadAnswer>,
    bytes: Vec<u8>,
    fingerprint: Fingerprint,
    n: int,
)
    requires
        is_whole_read(reads, answers, bytes, fingerprint),
        0 <= n < reads.len(),
    ensures
        reads[n].discovered == reads[0].discovered,
        reads[n].limit == reads[0].limit,
        reads[n].bytes@ == pieces(reads, answers, n),
        is_stage_at(reads[n].stage, n),
        reads[n].stage is HandleAfter || reads[n].stage is PathAfter ==> reads[n].bytes@.len()
            <= reads[n].limit,
        reads[n].stage is PathAfter ==> n >= 3 && reads[n - 1].stage is HandleAfter
            && answers[n - 1].stat is Ok && answers[n - 1].stat->Ok_0.fingerprint
            == reads[n].stage->PathAfter_handle,
        reads[n].stage is HandleAfter ==> n >= 3,
    decreases n,
{
    if n > 0 {
        lemma_reads(reads, answers, bytes, fingerprint, n - 1);
        assert(is_asked(reads, answers, n - 1));
        assert(reads[n].bytes@ =~= pieces(reads, answers, n));
    }
}

/// A file is admitted only as it was discovered: before and after it was read, by its path and
/// by its handle, it was an ordinary file of the size, the time and the identity that were
/// discovered. What is given is what was read, piece by piece, and no more than the limit.
pub proof fn files_are_admitted_only_unchanged(
    reads: Seq<BoundedRead>,
    answers: Seq<ReadAnswer>,
    bytes: Vec<u8>,
    fingerprint: Fingerprint,
)
    requires
        is_whole_read(reads, answers, bytes, fingerprint),
    ensures
        reads.len() >= 5,
        is_unchanged(answers[0], reads[0].discovered),
        is_unchanged(answers[1], reads[0].discovered),
        answers[reads.len() - 2].stat is Ok,
        answers[reads.len() - 2].stat->Ok_0.fingerprint == reads[0].discovered,
        is_unchanged(answers[reads.len() - 1], reads[0].discovered),
        reads[0].discovered.length <= reads[0].limit,
        bytes@ == pieces(reads, answers, reads.len() as int),
        bytes@.len() <= reads[0].limit,
        fingerprint == reads[0].discovered,
{
    let n = reads.len() - 1;
    lemma_reads(reads, answers, bytes, fingerprint, n);
    assert(reads[n].stage is PathAfter);
    lemma_reads(reads, answers, bytes, fingerprint, n - 1);
    lemma_reads(reads, answers, bytes, fingerprint, 0);
    lemma_reads(reads, answers, bytes, fingerprint, 1);
    assert(is_asked(reads, answers, 0));
    assert(is_asked(reads, answers, 1));
    if n == 3 {
        assert(reads[2].stage is HandleAfter);
        assert(is_asked(reads, answers, 1));
    }
    assert(pieces(reads, answers, n + 1) =~= pieces(reads, answers, n));
}

/// An inventory is complete exactly where nothing was left out that could be a source, and its
/// summary counts what it holds.
pub proof fn inventories_are_complete_unless_a_source_is_missing(
    state: InventoryState,
    r: SourceInventory,
)
    requires
        is_inventory(state, r),
    ensures
        r.completeness == InventoryCompleteness::Partial <==> exists|i: int|
            0 <= i < state.omitted.len() && (#[trigger] state.omitted[i]).impact
                == OmissionImpact::IncompleteSourceSet,
        r.files@ == state.files,
        r.summary.admitted_files == r.files@.len(),
        r.summary.omitted_files == state.omitted.len(),
{
    let a = state.omitted;
    let b = r.omitted@;
    a.to_multiset_ensures();
    b.to_multiset_ensures();
    if exists|i: int|
        0 <= i < a.len() && (#[trigger] a[i]).impact == OmissionImpact::IncompleteSourceSet {
        let i = choose|i: int|
            0 <= i < a.len() && (#[trigger] a[i]).impact == OmissionImpact::IncompleteSourceSet;
        assert(a.contains(a[i]));
        assert(b.to_multiset().count(a[i]) > 0);
        assert(b.contains(a[i]));
        let j = choose|j: int| 0 <= j < b.len() && b[j] == a[i];
        assert(b[j].impact == OmissionImpact::IncompleteSourceSet);
    }
    if r.completeness == InventoryCompleteness::Partial {
        let j = choose|j: int|
            0 <= j < b.len() && (#[trigger] b[j]).impact == OmissionImpact::IncompleteSourceSet;
        assert(b.contains(b[j]));
        assert(a.to_multiset().count(b[j]) > 0);
        assert(a.contains(b[j]));
        let i = choose|i: int| 0 <= i < a.len() && a[i] == b[j];
        assert(a[i].impact == OmissionImpact::IncompleteSourceSet);
    }
}

/// One more candidate makes an inventory one file longer, or leaves one more path out, and
/// never both: a candidate of no language is left out, so is one that is one too many, and a
/// file is kept only where the bytes of all files together stay within the limit.
pub proof fn candidates_are_kept_or_left_out<F: Fn(&SourceCandidate) -> ReadResult>(
    before: InventoryState,
    c: SourceCandidate,
    limits: ResourceLimits,
    read: F,
    after: InventoryState,
)
    requires
        is_taken(before, c, limits, read, after),
    ensures
        after.files == before.files || after.files.len() == before.files.len() + 1
            && after.files.drop_last() == before.files,
        after.omitted == before.omitted || after.omitted.len() == before.omitted.len() + 1
            && after.omitted.drop_last() == before.omitted,
        after.files == before.files <==> after.omitted.len() == before.omitted.len() + 1,
        after.files.len() == before.files.len() + 1 ==> c.language is Some && before.files.len()
            < limits.max_files && after.files.last().path == c.path
            && bytes_total(after.files, after.files.len() as int)
            <= limits.max_total_bytes,
        after.omitted.len() == before.omitted.len() + 1 ==> after.omitted.last().path == c.path,
        c.language is Some && before.files.len() >= limits.max_files ==> after.omitted.len()
            == before.omitted.len() + 1 && after.omitted.last().reason
            == (OmissionReason::FileCountLimit { limit: limits.max_files }),
{
    if after.files.len() == before.files.len() + 1 {
        assert(after.files.drop_last() =~= before.files);
        let n = before.files.len() as int;
        lemma_bytes_total_prefix(before.files, after.files, n);
    }
    if after.omitted.len() == before.omitted.len() + 1 {
        assert(after.omitted.drop_last() =~= before.omitted);
    }
}

proof fn lemma_bytes_total_prefix(
    a: Seq<InventoryFile>,
    b: Seq<InventoryFile>,
    n: int,
)
    requires
        0 <= n <= a.len(),
        n <= b.len(),
        forall|i: int| 0 <= i < n ==> a[i] == b[i],
    ensures
        bytes_total(a, n) == bytes_total(b, n),
    decreases n,
{
    if n > 0 {
        lemma_bytes_total_prefix(a, b, n - 1);
    }
}

/// How many of the first omissions have a reason with the tag.
pub open spec fn times(omitted: Seq<OmittedFile>, n: int, tag: Seq<char>) -> nat
    decreases n,
{
    if n <= 0 {
        0
    } else {
        times(omitted, n - 1, tag) + if omitted[n - 1].reason.tag_text() == tag {
            1nat
        } else {
            0nat
        }
    }
}

/// Each reason is counted as often as it occurs, and one that does not occur is not counted.
pub proof fn reasons_are_counted_as_often_as_they_occur(
    omitted: Seq<OmittedFile>,
    n: int,
    tag: Seq<char>,
)
    requires
        0 <= n <= omitted.len() <= usize::MAX,
    ensures
        times(omitted, n, tag) <= n,
        tally(omitted, n).contains_key(tag) <==> times(omitted, n, tag) > 0,
        tally(omitted, n).contains_key(tag) ==> tally(omitted, n)[tag].1 == times(
            omitted,
            n,
            tag,
        ) && tally(omitted, n)[tag].0.tag_text() == tag,
    decreases n,
{
    if n > 0 {
        reasons_are_counted_as_often_as_they_occur(omitted, n - 1, tag);
        reasons_are_counted_as_often_as_they_occur(
            omitted,
            n - 1,
            omitted[n - 1].reason.tag_text(),
        );
    }
}

proof fn lemma_found(
    events: Seq<WalkEvent>,
    include_hidden: bool,
    enabled: Seq<Language>,
    n: int,
    i: int,
)
    requires
        0 <= i < n <= events.len(),
    ensures
        event_outcome(events[i], include_hidden, enabled) matches EventOutcome::Candidate(c)
            ==> candidates_found(events, include_hidden, enabled, n).contains(c),
        event_outcome(events[i], include_hidden, enabled) matches EventOutcome::Omission(o)
            ==> omissions_found(events, include_hidden, enabled, n).contains(o),
    decreases n,
{
    let candidates = candidates_found(events, include_hidden, enabled, n);
    let omissions = omissions_found(events, include_hidden, enabled, n);
    if i == n - 1 {
        match event_outcome(events[i], include_hidden, enabled) {
            EventOutcome::Candidate(c) => {
                assert(candidates.last() == c);
            },
            EventOutcome::Omission(o) => {
                assert(omissions.last() == o);
            },
            _ => {},
        }
    } else {
        lemma_found(events, include_hidden, enabled, n - 1, i);
        let earlier = candidates_found(events, include_hidden, enabled, n - 1);
        let omitted = omissions_found(events, include_hidden, enabled, n - 1);
        match event_outcome(events[i], include_hidden, enabled) {
            EventOutcome::Candidate(c) => {
                let k = choose|k: int| 0 <= k < earlier.len() && earlier[k] == c;
                assert(candidates[k] == c);
            },
            EventOutcome::Omission(o) => {
                let k = choose|k: int| 0 <= k < omitted.len() && omitted[k] == o;
                assert(omissions[k] == o);
            },
            _ => {},
        }
    }
}

proof fn lemma_found_in_events(
    events: Seq<WalkEvent>,
    include_hidden: bool,
    enabled: Seq<Language>,
    n: int,
    k: int,
)
    requires
        0 <= n <= events.len(),
        0 <= k < candidates_found(events, include_hidden, enabled, n).len(),
    ensures
        exists|i: int|
            0 <= i < n && #[trigger] event_outcome(events[i], include_hidden, enabled)
                == EventOutcome::Candidate(candidates_found(events, include_hidden, enabled, n)[k]),
    decreases n,
{
    if n > 0 {
        let earlier = candidates_found(events, include_hidden, enabled, n - 1);
        if k < earlier.len() {
            lemma_found_in_events(events, include_hidden, enabled, n - 1, k);
        } else {
            assert(event_outcome(events[n - 1], include_hidden, enabled) is Candidate);
        }
    }
}

proof fn lemma_same_values<T>(a: Seq<T>, b: Seq<T>, x: T)
    requires
        a.to_multiset() == b.to_multiset(),
        a.contains(x),
    ensures
        b.contains(x),
{
    a.to_multiset_ensures();
    b.to_multiset_ensures();
    assert(a.to_multiset().count(x) > 0);
    assert(b.to_multiset().count(x) > 0);
}

/// A walk misses nothing and makes up nothing: what an event shows to be a candidate is one of
/// the candidates, what it shows to be left out is among what is left out, and every candidate
/// is one of some event. Candidates come in the order of their paths.
pub proof fn walks_miss_nothing(
    events: Seq<WalkEvent>,
    include_hidden: bool,
    enabled: Seq<Language>,
    d: SourceDiscovery,
    i: int,
    k: int,
    l: int,
)
    requires
        is_discovery(events, include_hidden, enabled, d),
    ensures
        0 <= i < events.len() ==> (event_outcome(events[i], include_hidden, enabled) matches
            EventOutcome::Candidate(c) ==> exists|j: int|
            0 <= j < d.candidates@.len() && (#[trigger] d.candidates@[j])@ == c),
        0 <= i < events.len() ==> (event_outcome(events[i], include_hidden, enabled) matches
            EventOutcome::Omission(o) ==> exists|j: int|
            0 <= j < d.omitted@.len() && (#[trigger] d.omitted@[j])@ == o),
        0 <= k < d.candidates@.len() ==> exists|j: int|
            0 <= j < events.len() && #[trigger] event_outcome(events[j], include_hidden, enabled)
                == EventOutcome::Candidate(d.candidates@[k]@),
        0 <= k < l < d.candidates@.len() ==> !text_lt(
            d.candidates@[l].path@,
            d.candidates@[k].path@,
        ),
{
    let n = events.len() as int;
    let found = candidates_found(events, include_hidden, enabled, n);
    let left_out = omissions_found(events, include_hidden, enabled, n);
    let unsorted = choose|u: Seq<SourceCandidate>| #[trigger]
        is_stable_sort(u, d.candidates@) && candidate_views(u) == found;
    let omitted = choose|u: Seq<OmittedFile>| #[trigger]
        is_stable_sort(u, d.omitted@) && left_out_views(u) == left_out;
    if 0 <= i < n {
        lemma_found(events, include_hidden, enabled, n, i);
        match event_outcome(events[i], include_hidden, enabled) {
            EventOutcome::Candidate(c) => {
                let j = choose|j: int| 0 <= j < found.len() && found[j] == c;
                assert(candidate_views(unsorted)[j] == unsorted[j]@);
                lemma_same_values(unsorted, d.candidates@, unsorted[j]);
                let m = choose|m: int|
                    0 <= m < d.candidates@.len() && d.candidates@[m] == unsorted[j];
                assert(d.candidates@[m]@ == c);
            },
            EventOutcome::Omission(o) => {
                let j = choose|j: int| 0 <= j < left_out.len() && left_out[j] == o;
                assert(left_out_views(omitted)[j] == omitted[j]@);
                lemma_same_values(omitted, d.omitted@, omitted[j]);
                let m = choose|m: int| 0 <= m < d.omitted@.len() && d.omitted@[m] == omitted[j];
                assert(d.omitted@[m]@ == o);
            },
            _ => {},
        }
    }
    if 0 <= k < d.candidates@.len() {
        lemma_same_values(d.candidates@, unsorted, d.candidates@[k]);
        let j = choose|j: int| 0 <= j < unsorted.len() && unsorted[j] == d.candidates@[k];
        assert(candidate_views(unsorted)[j] == unsorted[j]@);
        lemma_found_in_events(events, include_hidden, enabled, n, j);
    }
    if 0 <= k < l < d.candidates@.len() {
        assert(key_le(d.candidates@[k].key(), d.candidates@[l].key()));
        key_order_is_total(d.candidates@[k].key(), d.candidates@[l].key());
    }
}

} // verus!
