//! What a walk of a project finds: which entries are sources, which are left out and
//! why. The walk itself is the caller's; what it meets is judged here.

use vstd::prelude::*;
use vstd::string::*;
use vstd::utf8::*;
use crate::deadline::{
    failure_of, heeds, is_interruption, Cancellation, Deadline, NeverCancelled,
};
use crate::error::CliError;
use crate::graph::{base_name, path_language, Language};
use crate::inventory::types::{
    path_impact, FileClassification, MtimeHint, OmissionImpact, OmissionReason, OmittedFile,
    SourceCandidate, SourceDiscovery, StableIdentity, StableIoErrorKind,
};
use crate::ordering::{is_stable_sort, stable_sort};
use crate::project::manifest::name_views;
use crate::project::path::{joined, names, rejection, ProjectPath};
use crate::text::{chars_of, same_text};

verus! {

/// The names of directories that are never walked.
pub open spec fn hard_directories_spec() -> Seq<Seq<char>> {
    seq![
        ".git"@,
        ".hg"@,
        ".svn"@,
        "node_modules"@,
        "target"@,
        "dist"@,
        "build"@,
        "coverage"@,
        ".next"@,
        ".nuxt"@,
        ".svelte-kit"@,
        ".venv"@,
        "venv"@,
        "__pycache__"@,
    ]
}

/// The names of directories that are never walked.
pub fn hard_directories() -> (r: Vec<&'static str>)
    ensures
        name_views(r@) == hard_directories_spec(),
{
    let mut r: Vec<&'static str> = Vec::new();
    r.push(".git");
    r.push(".hg");
    r.push(".svn");
    r.push("node_modules");
    r.push("target");
    r.push("dist");
    r.push("build");
    r.push("coverage");
    r.push(".next");
    r.push(".nuxt");
    r.push(".svelte-kit");
    r.push(".venv");
    r.push("venv");
    r.push("__pycache__");
    assert(name_views(r@) =~= hard_directories_spec());
    r
}

/// An entry of the walk is entered, or looked at, unless it is a directory with one of
/// those names. A name that is no text is none of them.
pub fn enters(is_directory: bool, name: Option<&str>) -> (r: bool)
    ensures
        r == !(is_directory && (name matches Some(n) && hard_directories_spec().contains(n@))),
{
    if !is_directory {
        return true;
    }
    let text = match name {
        Some(text) => text,
        None => {
            return true;
        },
    };
    let hard = hard_directories();
    let ghost all = hard_directories_spec();
    let mut i: usize = 0;
    while i < hard.len()
        invariant
            i <= hard.len(),
            is_directory,
            name == Some(text),
            all == hard_directories_spec(),
            all == name_views(hard@),
            forall|j: int| 0 <= j < i ==> all[j] != text@,
        decreases hard.len() - i,
    {
        assert(all[i as int] == hard@[i as int]@);
        if same_text(hard[i], text) {
            assert(all.contains(text@));
            return false;
        }
        i += 1;
    }
    assert(all.len() == hard@.len());
    assert(!all.contains(text@));
    true
}

/// What an entry is, a link not followed.
#[derive(Debug, Clone, Copy, PartialEq, Eq, Structural)]
pub enum EntryKind {
    File,
    Directory,
    /// A link that leads to a directory.
    DirectoryLink,
    /// Any other link.
    Link,
    Other,
}

/// What the metadata of an entry say.
#[derive(Debug, Clone, Copy, PartialEq, Eq, Structural)]
pub struct EntryMetadata {
    pub kind: EntryKind,
    pub size_bytes: u64,
    pub mtime: Option<MtimeHint>,
    pub identity: StableIdentity,
}

/// What a walk meets. Paths are held as the bytes of their native spelling; the
/// relative one is missing where the entry does not lie in the project.
#[derive(Debug)]
pub enum WalkEvent {
    Failed { relative: Option<Vec<u8>>, kind: StableIoErrorKind },
    Entry {
        depth: usize,
        relative: Option<Vec<u8>>,
        absolute_path: Vec<u8>,
        metadata: Result<EntryMetadata, StableIoErrorKind>,
    },
}

/// Some name of the path begins with a full stop.
pub open spec fn is_hidden(path: Seq<char>) -> bool {
    exists|i: int|
        0 <= i < path.len() && (#[trigger] path[i]) == '.' && (i == 0 || path[i - 1] == '/')
}

/// The path is that of a file of rules for the walk.
pub open spec fn is_ignore_file(path: Seq<char>) -> bool {
    base_name(path) == ".gitignore"@ || base_name(path) == ".ignore"@
}

/// The classification of a path by its language and by the languages in use.
pub open spec fn classification_of(path: Seq<char>, enabled: Seq<Language>) -> FileClassification {
    match path_language(path) {
        Some(language) => if enabled.contains(language) {
            FileClassification::Enabled(language)
        } else {
            FileClassification::FeatureDisabled(language)
        },
        None => FileClassification::UnrecognizedExtension,
    }
}

/// Classifies a path by its language and by the languages in use.
pub fn classify(path: &ProjectPath, enabled: &Vec<Language>) -> (r: FileClassification)
    ensures
        r == classification_of(path@, enabled@),
{
    match Language::from_path(path.as_str()) {
        Some(language) => {
            let mut i: usize = 0;
            while i < enabled.len()
                invariant
                    i <= enabled.len(),
                    path_language(path@) == Some(language),
                    forall|j: int| 0 <= j < i ==> enabled@[j] != language,
                decreases enabled.len() - i,
            {
                if enabled[i] == language {
                    return FileClassification::Enabled(language);
                }
                i += 1;
            }
            FileClassification::FeatureDisabled(language)
        },
        None => FileClassification::UnrecognizedExtension,
    }
}

/// The values of a candidate.
pub struct CandidateView {
    pub path: Seq<char>,
    pub language: Option<Language>,
    pub classification: FileClassification,
    pub size_bytes: u64,
    pub mtime: Option<MtimeHint>,
    pub identity: StableIdentity,
    pub absolute_path: Seq<u8>,
}

impl SourceCandidate {
    /// The values.
    pub open spec fn view(self) -> CandidateView {
        CandidateView {
            path: self.path@,
            language: self.language,
            classification: self.classification,
            size_bytes: self.size_bytes,
            mtime: self.mtime,
            identity: self.identity,
            absolute_path: self.absolute_path@,
        }
    }
}

/// The values of an omission.
pub struct LeftOut {
    pub path: Seq<char>,
    pub reason: OmissionReason,
    pub impact: OmissionImpact,
}

impl OmittedFile {
    /// The values.
    pub open spec fn view(self) -> LeftOut {
        LeftOut { path: self.path@, reason: self.reason, impact: self.impact }
    }
}

/// What follows from an event.
pub enum EventOutcome {
    Nothing,
    Candidate(CandidateView),
    Omission(LeftOut),
    /// The path is not one of a project.
    Refused(Seq<u8>),
}

/// The omission of an ordinary path.
pub open spec fn ordinary_omission(path: Seq<char>, reason: OmissionReason) -> EventOutcome {
    EventOutcome::Omission(LeftOut { path, reason, impact: path_impact(path) })
}

/// The text of a path that is one of a project.
pub open spec fn path_text(b: Seq<u8>) -> Seq<char> {
    decode_utf8(joined(names(b)))
}

/// What follows from the metadata of an entry.
pub open spec fn entry_outcome(
    path: Seq<char>,
    absolute_path: Seq<u8>,
    metadata: Result<EntryMetadata, StableIoErrorKind>,
    enabled: Seq<Language>,
) -> EventOutcome {
    match metadata {
        Err(kind) => ordinary_omission(path, OmissionReason::ReadError { kind }),
        Ok(m) => match m.kind {
            EntryKind::DirectoryLink => ordinary_omission(path, OmissionReason::SymlinkDirectory),
            EntryKind::Link => ordinary_omission(path, OmissionReason::SymlinkFile),
            EntryKind::Other => ordinary_omission(path, OmissionReason::NotRegularFile),
            EntryKind::Directory => EventOutcome::Nothing,
            EntryKind::File => {
                let classification = classification_of(path, enabled);
                EventOutcome::Candidate(
                    CandidateView {
                        path,
                        language: match classification {
                            FileClassification::Enabled(language) => Some(language),
                            _ => None,
                        },
                        classification,
                        size_bytes: m.size_bytes,
                        mtime: m.mtime,
                        identity: m.identity,
                        absolute_path,
                    },
                )
            },
        },
    }
}

/// What follows from an event. A directory that could not be walked may hide sources,
/// whatever it is called.
pub open spec fn event_outcome(
    event: WalkEvent,
    include_hidden: bool,
    enabled: Seq<Language>,
) -> EventOutcome {
    match event {
        WalkEvent::Failed { relative, kind } => match relative {
            Some(b) => if rejection(b@) is None {
                EventOutcome::Omission(
                    LeftOut {
                        path: path_text(b@),
                        reason: OmissionReason::ReadError { kind },
                        impact: OmissionImpact::IncompleteSourceSet,
                    },
                )
            } else {
                EventOutcome::Nothing
            },
            None => EventOutcome::Nothing,
        },
        WalkEvent::Entry { depth, relative, absolute_path, metadata } => if depth == 0 {
            EventOutcome::Nothing
        } else {
            match relative {
                None => EventOutcome::Nothing,
                Some(b) => if rejection(b@) is Some {
                    EventOutcome::Refused(b@)
                } else if is_ignore_file(path_text(b@)) || (!include_hidden && is_hidden(
                    path_text(b@),
                )) {
                    EventOutcome::Nothing
                } else {
                    entry_outcome(path_text(b@), absolute_path@, metadata, enabled)
                },
            }
        },
    }
}

/// The candidates among the first `n` events, in their order.
pub open spec fn candidates_found(
    events: Seq<WalkEvent>,
    include_hidden: bool,
    enabled: Seq<Language>,
    n: int,
) -> Seq<CandidateView>
    decreases n,
{
    if n <= 0 {
        Seq::empty()
    } else {
        let before = candidates_found(events, include_hidden, enabled, n - 1);
        match event_outcome(events[n - 1], include_hidden, enabled) {
            EventOutcome::Candidate(c) => before.push(c),
            _ => before,
        }
    }
}

/// The omissions among the first `n` events, in their order.
pub open spec fn omissions_found(
    events: Seq<WalkEvent>,
    include_hidden: bool,
    enabled: Seq<Language>,
    n: int,
) -> Seq<LeftOut>
    decreases n,
{
    if n <= 0 {
        Seq::empty()
    } else {
        let before = omissions_found(events, include_hidden, enabled, n - 1);
        match event_outcome(events[n - 1], include_hidden, enabled) {
            EventOutcome::Omission(o) => before.push(o),
            _ => before,
        }
    }
}

/// The candidates of a list.
pub open spec fn candidate_views(v: Seq<SourceCandidate>) -> Seq<CandidateView> {
    v.map_values(|c: SourceCandidate| c@)
}

/// The omissions of a list.
pub open spec fn left_out_views(v: Seq<OmittedFile>) -> Seq<LeftOut> {
    v.map_values(|o: OmittedFile| o@)
}

/// The list is sorted, and is made of the values.
pub open spec fn candidates_sorted(v: Seq<SourceCandidate>, found: Seq<CandidateView>) -> bool {
    exists|unsorted: Seq<SourceCandidate>| #[trigger]
        is_stable_sort(unsorted, v) && candidate_views(unsorted) == found
}

/// The list is sorted by path and reason, and is made of the values.
pub open spec fn omissions_sorted(v: Seq<OmittedFile>, found: Seq<LeftOut>) -> bool {
    exists|unsorted: Seq<OmittedFile>| #[trigger]
        is_stable_sort(unsorted, v) && left_out_views(unsorted) == found
}

/// The first event that is refused.
pub open spec fn first_refused(
    events: Seq<WalkEvent>,
    include_hidden: bool,
    enabled: Seq<Language>,
    i: int,
) -> bool {
    &&& 0 <= i < events.len()
    &&& event_outcome(events[i], include_hidden, enabled) is Refused
    &&& forall|j: int|
        0 <= j < i ==> !(event_outcome(#[trigger] events[j], include_hidden, enabled) is Refused)
}

fn hidden(path: &str) -> (r: bool)
    ensures
        r == is_hidden(path@),
{
    let chars = chars_of(path);
    let mut i: usize = 0;
    while i < chars.len()
        invariant
            i <= chars.len(),
            chars@ == path@,
            forall|j: int|
                0 <= j < i ==> !((#[trigger] path@[j]) == '.' && (j == 0 || path@[j - 1] == '/')),
        decreases chars.len() - i,
    {
        if chars[i] == '.' && (i == 0 || chars[i - 1] == '/') {
            assert(path@[i as int] == '.');
            return true;
        }
        i += 1;
    }
    false
}

proof fn lemma_last_position(s: Seq<char>, c: char, at: int)
    requires
        0 <= at < s.len(),
        s[at] == c,
        forall|j: int| at < j < s.len() ==> s[j] != c,
    ensures
        crate::graph::last_position(s, c) == Some(at),
    decreases s.len(),
{
    if at < s.len() - 1 {
        assert(s[s.len() - 1] != c);
        lemma_last_position(s.drop_last(), c, at);
    }
}

proof fn lemma_no_position(s: Seq<char>, c: char)
    requires
        forall|j: int| 0 <= j < s.len() ==> s[j] != c,
    ensures
        crate::graph::last_position(s, c) is None,
    decreases s.len(),
{
    if s.len() > 0 {
        assert(s[s.len() - 1] != c);
        lemma_no_position(s.drop_last(), c);
    }
}

fn ignore_file(path: &str) -> (r: bool)
    ensures
        r == is_ignore_file(path@),
{
    let chars = chars_of(path);
    let mut start: usize = chars.len();
    while start > 0 && chars[start - 1] != '/'
        invariant
            start <= chars.len(),
            chars@ == path@,
            forall|j: int| start <= j < chars.len() ==> path@[j] != '/',
        decreases start,
    {
        start -= 1;
    }
    proof {
        if start > 0 {
            lemma_last_position(path@, '/', start - 1);
        } else {
            lemma_no_position(path@, '/');
        }
        assert(base_name(path@) =~= path@.skip(start as int));
    }
    ends_in(&chars, start, ".gitignore") || ends_in(&chars, start, ".ignore")
}

fn ends_in(chars: &Vec<char>, start: usize, name: &str) -> (r: bool)
    requires
        start <= chars@.len(),
    ensures
        r == (chars@.skip(start as int) == name@),
{
    let wanted = chars_of(name);
    let ghost tail = chars@.skip(start as int);
    if chars.len() - start != wanted.len() {
        return false;
    }
    let mut i: usize = 0;
    while i < wanted.len()
        invariant
            i <= wanted.len(),
            start <= chars@.len(),
            chars.len() - start == wanted.len(),
            wanted@ == name@,
            tail == chars@.skip(start as int),
            forall|j: int| 0 <= j < i ==> tail[j] == wanted@[j],
        decreases wanted.len() - i,
    {
        assert(tail[i as int] == chars@[start + i]);
        if chars[start + i] != wanted[i] {
            return false;
        }
        i += 1;
    }
    assert(tail =~= name@);
    true
}

/// One entry, judged.
enum Judged {
    Nothing,
    Candidate(SourceCandidate),
    Omission(OmittedFile),
}

impl Judged {
    spec fn is_of(self, outcome: EventOutcome) -> bool {
        match (self, outcome) {
            (Judged::Nothing, EventOutcome::Nothing) => true,
            (Judged::Candidate(c), EventOutcome::Candidate(v)) => c@ == v,
            (Judged::Omission(o), EventOutcome::Omission(v)) => o@ == v,
            _ => false,
        }
    }
}

fn judge_entry(
    path: ProjectPath,
    absolute_path: Vec<u8>,
    metadata: Result<EntryMetadata, StableIoErrorKind>,
    enabled: &Vec<Language>,
) -> (r: Judged)
    ensures
        r.is_of(entry_outcome(path@, absolute_path@, metadata, enabled@)),
{
    let m = match metadata {
        Ok(m) => m,
        Err(kind) => {
            return Judged::Omission(OmittedFile::new(path, OmissionReason::ReadError { kind }));
        },
    };
    match m.kind {
        EntryKind::DirectoryLink => Judged::Omission(
            OmittedFile::new(path, OmissionReason::SymlinkDirectory),
        ),
        EntryKind::Link => Judged::Omission(OmittedFile::new(path, OmissionReason::SymlinkFile)),
        EntryKind::Other => Judged::Omission(
            OmittedFile::new(path, OmissionReason::NotRegularFile),
        ),
        EntryKind::Directory => Judged::Nothing,
        EntryKind::File => {
            let classification = classify(&path, enabled);
            Judged::Candidate(
                SourceCandidate {
                    language: match classification {
                        FileClassification::Enabled(language) => Some(language),
                        _ => None,
                    },
                    classification,
                    size_bytes: m.size_bytes,
                    mtime: m.mtime,
                    identity: m.identity,
                    path,
                    absolute_path,
                },
            )
        },
    }
}

/// The failure is the refusal of the path.
pub open spec fn is_path_refusal(e: CliError, path: Seq<u8>) -> bool {
    rejection(path) is Some && e.is_relative_path(path, rejection(path)->0)
}

fn judge(event: WalkEvent, include_hidden: bool, enabled: &Vec<Language>) -> (r: Result<
    Judged,
    CliError,
>)
    ensures
        match r {
            Ok(judged) => judged.is_of(event_outcome(event, include_hidden, enabled@)),
            Err(e) => event_outcome(event, include_hidden, enabled@) matches EventOutcome::Refused(
                path,
            ) && is_path_refusal(e, path),
        },
{
    match event {
        WalkEvent::Failed { relative, kind } => match relative {
            Some(b) => match ProjectPath::new(b.as_slice()) {
                Ok(path) => {
                    proof {
                        encode_utf8_decode_utf8(path@);
                    }
                    Ok(
                        Judged::Omission(
                            OmittedFile::traversal_directory(
                                path,
                                OmissionReason::ReadError { kind },
                            ),
                        ),
                    )
                },
                Err(_) => Ok(Judged::Nothing),
            },
            None => Ok(Judged::Nothing),
        },
        WalkEvent::Entry { depth, relative, absolute_path, metadata } => {
            if depth == 0 {
                return Ok(Judged::Nothing);
            }
            let relative = match relative {
                Some(relative) => relative,
                None => {
                    return Ok(Judged::Nothing);
                },
            };
            let path = match ProjectPath::new(relative.as_slice()) {
                Ok(path) => path,
                Err(e) => {
                    return Err(e);
                },
            };
            proof {
                encode_utf8_decode_utf8(path@);
            }
            if ignore_file(path.as_str()) || (!include_hidden && hidden(path.as_str())) {
                return Ok(Judged::Nothing);
            }
            Ok(judge_entry(path, absolute_path, metadata, enabled))
        },
    }
}

/// The discovery lists what the events tell, sorted, and none of them is refused.
pub open spec fn is_discovery(
    events: Seq<WalkEvent>,
    include_hidden: bool,
    enabled: Seq<Language>,
    d: SourceDiscovery,
) -> bool {
    &&& forall|i: int|
        0 <= i < events.len() ==> !(event_outcome(
            #[trigger] events[i],
            include_hidden,
            enabled,
        ) is Refused)
    &&& candidates_sorted(
        d.candidates@,
        candidates_found(events, include_hidden, enabled, events.len() as int),
    )
    &&& omissions_sorted(
        d.omitted@,
        omissions_found(events, include_hidden, enabled, events.len() as int),
    )
}

/// The failure is the refusal of the first event that is refused.
pub open spec fn is_discovery_refusal(
    events: Seq<WalkEvent>,
    include_hidden: bool,
    enabled: Seq<Language>,
    e: CliError,
) -> bool {
    exists|i: int| #[trigger]
        first_refused(events, include_hidden, enabled, i) && is_path_refusal(
            e,
            event_outcome(events[i], include_hidden, enabled)->Refused_0,
        )
}

/// The failure is an interruption that can come where one is looked for.
spec fn can_interrupt<C: Cancellation>(e: CliError, checked: Option<(&Deadline, &C)>) -> bool {
    match checked {
        Some((deadline, cancellation)) => is_interruption(e, *deadline, cancellation),
        None => false,
    }
}

/// The deadline and the source are heeded, where there are any.
spec fn heeds_checks<C: Cancellation>(
    checked: Option<(&Deadline, &C)>,
    failure: Option<CliError>,
) -> bool {
    match checked {
        Some((deadline, cancellation)) => heeds(*deadline, cancellation, failure),
        None => true,
    }
}

/// Checks the deadline and the cancellation, where there are any.
fn check<C: Cancellation>(checked: Option<(&Deadline, &C)>) -> (r: Result<(), CliError>)
    ensures
        r matches Err(e) ==> can_interrupt(e, checked),
        heeds_checks(checked, failure_of(r)),
{
    match checked {
        Some((deadline, cancellation)) => deadline.check(cancellation),
        None => Ok(()),
    }
}

fn discover<C: Cancellation>(
    events: Vec<WalkEvent>,
    include_hidden: bool,
    enabled: &Vec<Language>,
    checked: Option<(&Deadline, &C)>,
) -> (r: Result<SourceDiscovery, CliError>)
    ensures
        match r {
            Ok(d) => is_discovery(events@, include_hidden, enabled@, d),
            Err(e) => can_interrupt(e, checked) || is_discovery_refusal(
                events@,
                include_hidden,
                enabled@,
                e,
            ),
        },
        heeds_checks(checked, failure_of(r)),
{
    check(checked)?;
    let ghost all = events@;
    let count = events.len();
    let mut rest = crate::ordering::reversed(events);
    let mut candidates: Vec<SourceCandidate> = Vec::new();
    let mut omitted: Vec<OmittedFile> = Vec::new();
    let mut i: usize = 0;
    assert(candidate_views(candidates@) =~= Seq::empty());
    assert(left_out_views(omitted@) =~= Seq::empty());
    while i < count
        invariant
            i <= count,
            all == events@,
            count == all.len(),
            rest@ == all.skip(i as int).reverse(),
            forall|j: int|
                0 <= j < i ==> !(event_outcome(
                    #[trigger] all[j],
                    include_hidden,
                    enabled@,
                ) is Refused),
            candidate_views(candidates@) == candidates_found(
                all,
                include_hidden,
                enabled@,
                i as int,
            ),
            left_out_views(omitted@) == omissions_found(all, include_hidden, enabled@, i as int),
        decreases count - i,
    {
        check(checked)?;
        let event = match rest.pop() {
            Some(event) => event,
            None => {
                assert(false);
                return Err(CliError::Cancelled);
            },
        };
        proof {
            assert(event == all[i as int]);
            assert(rest@ =~= all.skip(i + 1).reverse());
        }
        let judged = match judge(event, include_hidden, enabled) {
            Ok(judged) => judged,
            Err(e) => {
                assert(first_refused(all, include_hidden, enabled@, i as int));
                assert(is_discovery_refusal(all, include_hidden, enabled@, e));
                return Err(e);
            },
        };
        match judged {
            Judged::Nothing => {},
            Judged::Candidate(c) => {
                let ghost before = candidates@;
                let ghost v = c@;
                candidates.push(c);
                assert(candidate_views(candidates@) =~= candidate_views(before).push(v));
            },
            Judged::Omission(o) => {
                let ghost before = omitted@;
                let ghost v = o@;
                omitted.push(o);
                assert(left_out_views(omitted@) =~= left_out_views(before).push(v));
            },
        }
        i += 1;
    }
    let ghost found = candidates@;
    let ghost left_out = omitted@;
    let candidates = stable_sort(candidates);
    let omitted = stable_sort(omitted);
    proof {
        assert(is_stable_sort(found, candidates@));
        assert(is_stable_sort(left_out, omitted@));
        assert(candidates_sorted(
            candidates@,
            candidates_found(all, include_hidden, enabled@, all.len() as int),
        ));
        assert(omissions_sorted(
            omitted@,
            omissions_found(all, include_hidden, enabled@, all.len() as int),
        ));
    }
    Ok(SourceDiscovery { candidates, omitted })
}

/// Judges what a walk met, from metadata alone.
pub fn discover_sources(events: Vec<WalkEvent>, include_hidden: bool, enabled: &Vec<Language>) -> (r:
    Result<SourceDiscovery, CliError>)
    ensures
        match r {
            Ok(d) => is_discovery(events@, include_hidden, enabled@, d),
            Err(e) => is_discovery_refusal(events@, include_hidden, enabled@, e),
        },
{
    discover::<NeverCancelled>(events, include_hidden, enabled, None)
}

/// Judges what a walk met. A cancellation or the end of the time ends the discovery;
/// neither is an omission.
pub fn discover_sources_checked<C: Cancellation>(
    events: Vec<WalkEvent>,
    include_hidden: bool,
    enabled: &Vec<Language>,
    deadline: &Deadline,
    cancellation: &C,
) -> (r: Result<SourceDiscovery, CliError>)
    ensures
        match r {
            Ok(d) => is_discovery(events@, include_hidden, enabled@, d),
            Err(e) => is_interruption(e, *deadline, cancellation) || is_discovery_refusal(
                events@,
                include_hidden,
                enabled@,
                e,
            ),
        },
        heeds(*deadline, cancellation, failure_of(r)),
{
    discover(events, include_hidden, enabled, Some((deadline, cancellation)))
}

/// A modification time, given as the time since or before the epoch. Before the
/// epoch the seconds are rounded down, so that the nanoseconds always count upwards.
/// One whose seconds do not fit is not kept.
pub fn mtime(before_epoch: bool, seconds: u64, nanoseconds: u32) -> (r: Option<MtimeHint>)
    requires
        nanoseconds < 1_000_000_000,
    ensures
        match r {
            Some(hint) => {
                &&& hint.nanoseconds < 1_000_000_000
                &&& hint.seconds_since_unix_epoch * 1_000_000_000 + hint.nanoseconds == (
                if before_epoch {
                    -(seconds * 1_000_000_000 + nanoseconds)
                } else {
                    seconds * 1_000_000_000 + nanoseconds
                })
            },
            None => seconds > i64::MAX,
        },
{
    if seconds > i64::MAX as u64 {
        return None;
    }
    let whole: i64 = seconds as i64;
    if !before_epoch {
        Some(MtimeHint { seconds_since_unix_epoch: whole, nanoseconds })
    } else if nanoseconds == 0 {
        Some(MtimeHint { seconds_since_unix_epoch: -whole, nanoseconds: 0 })
    } else {
        Some(
            MtimeHint {
                seconds_since_unix_epoch: -whole - 1,
                nanoseconds: 1_000_000_000 - nanoseconds,
            },
        )
    }
}

} // verus!
