//! Discovery and bounded reading of sources that live in memory.

use std::cell::Cell;

use code2graph::config::ResourceLimits;
use code2graph::deadline::{Cancellation, Deadline, NeverCancelled};
use code2graph::error::CliError;
use code2graph::graph::Language;
use code2graph::inventory::read::{
    begin_read, build_inventory, materialize_candidate, materialize_candidate_checked, read_bounded, read_question, FileStat,
    Fingerprint, ReadAnswer, ReadFailure, ReadQuestion, ReadResult, ReadStep,
};
use code2graph::inventory::types::{
    FileClassification, InventoryCompleteness, MaterializedCandidate, MtimeHint, OmissionImpact,
    OmissionReason, OmittedFile, SourceCandidate, SourceDiscovery, SourceInventory,
    StableIdentity, StableIoErrorKind,
};
use code2graph::inventory::walk::{
    discover_sources, enters, hard_directories, mtime, EntryKind, EntryMetadata, WalkEvent,
};

const MTIME: MtimeHint = MtimeHint { seconds_since_unix_epoch: 1, nanoseconds: 0 };
const IDENTITY: StableIdentity = StableIdentity { device: Some(1), inode: Some(2) };

fn entry(path: &str, kind: EntryKind, size: usize) -> WalkEvent {
    WalkEvent::Entry {
        depth: path.split('/').count(),
        relative: Some(path.as_bytes().to_vec()),
        absolute_path: format!("/project/{path}").into_bytes(),
        metadata: Ok(EntryMetadata {
            kind,
            size_bytes: size as u64,
            mtime: Some(MTIME),
            identity: IDENTITY,
        }),
    }
}

fn enabled() -> Vec<Language> {
    vec![Language::Rust]
}

fn discover(files: &[(&str, &[u8])], hidden: bool) -> SourceDiscovery {
    let events =
        files.iter().map(|(path, bytes)| entry(path, EntryKind::File, bytes.len())).collect();
    discover_sources(events, hidden, &enabled()).expect("discover")
}

fn paths(discovery: &SourceDiscovery) -> Vec<&str> {
    discovery.candidates.iter().map(|candidate| candidate.path.as_str()).collect()
}

fn stat(length: usize) -> FileStat {
    FileStat {
        is_regular: true,
        fingerprint: Fingerprint {
            length: length as u64,
            mtime: Some(MTIME),
            identity: IDENTITY,
        },
    }
}

/// Reads bytes that stay as they are, a few at a time.
fn drive(candidate: &SourceCandidate, limit: usize, bytes: &[u8]) -> ReadResult {
    let mut state = begin_read(candidate, limit);
    let mut place = 0;
    loop {
        let mut answer = ReadAnswer { stat: Ok(stat(bytes.len())), chunk: Ok(Vec::new()) };
        if let ReadQuestion::Read { at_most } = read_question(&state)? {
            let end = bytes.len().min(place + at_most.min(1_000));
            answer.chunk = Ok(bytes[place..end].to_vec());
            place = end;
        }
        match read_bounded(state, answer) {
            ReadStep::Ask(next) => state = next,
            ReadStep::Read(read, fingerprint) => return Ok((read, fingerprint)),
            ReadStep::Failed(failure) => return Err(failure),
        }
    }
}

fn inventory(files: &[(&str, &[u8])], limits: &ResourceLimits) -> SourceInventory {
    build_inventory(discover(files, false), limits, |candidate: &SourceCandidate| {
        let (_, bytes) =
            files.iter().find(|(path, _)| *path == candidate.path.as_str()).expect("file");
        drive(candidate, limits.max_file_bytes, bytes)
    })
}

#[test]
fn discovery_is_sorted_metadata_only_and_materialization_is_exact() {
    let limits = ResourceLimits::default();
    let discovered = discover(&[("z.rs", b"z"), ("a.rs", &[0xff])], false);
    assert_eq!(paths(&discovered), ["a.rs", "z.rs"]);
    assert!(discovered.omitted.is_empty());
    assert_eq!(discovered.candidates[0].size_bytes, 1);
    assert!(discovered.candidates[0].mtime.is_some());
    let invalid = &discovered.candidates[0];
    assert!(matches!(
        materialize_candidate(invalid, &limits, drive(invalid, limits.max_file_bytes, &[0xff])),
        MaterializedCandidate::Omitted(OmittedFile { reason: OmissionReason::InvalidUtf8, .. })
    ));
    let valid = &discovered.candidates[1];
    let MaterializedCandidate::File(file) =
        materialize_candidate(valid, &limits, drive(valid, limits.max_file_bytes, b"z"))
    else {
        panic!("valid source must materialize");
    };
    assert_eq!(file.bytes, b"z");
    assert_eq!(file.text, "z");
    assert_eq!(file.blake3, blake3::hash(b"z").to_hex().to_string());
    assert_eq!(file.mtime, valid.mtime);
}

#[test]
fn hidden_files_and_hard_directories_are_left_out() {
    let files: &[(&str, &[u8])] = &[("keep.rs", b""), (".hidden.rs", b"")];
    assert_eq!(paths(&discover(files, false)), ["keep.rs"]);
    assert_eq!(paths(&discover(files, true)), [".hidden.rs", "keep.rs"]);
    for hard in hard_directories() {
        assert!(!enters(true, Some(hard)), "{hard}");
        assert!(enters(false, Some(hard)), "{hard}");
    }
    assert!(enters(true, Some("src")));
}

#[test]
fn symlink_files_and_directories_are_omitted_without_following() {
    let events = vec![
        entry("real.rs", EntryKind::File, 1),
        entry("real_dir", EntryKind::Directory, 0),
        entry("linked.rs", EntryKind::Link, 0),
        entry("linked_dir", EntryKind::DirectoryLink, 0),
    ];
    let discovered = discover_sources(events, false, &enabled()).expect("discover");
    assert_eq!(paths(&discovered), ["real.rs"]);
    assert!(discovered.omitted.iter().any(|item| {
        item.path.as_str() == "linked.rs" && item.reason == OmissionReason::SymlinkFile
    }));
    assert!(discovered.omitted.iter().any(|item| {
        item.path.as_str() == "linked_dir" && item.reason == OmissionReason::SymlinkDirectory
    }));
}

#[test]
fn classifications_cover_enabled_disabled_and_unknown_extensions() {
    let discovered =
        discover(&[("source.rs", b"x"), ("source.py", b"x"), ("README.unknown", b"x")], false);
    for candidate in &discovered.candidates {
        let expected = match Language::from_path(candidate.path.as_str()) {
            Some(Language::Rust) => FileClassification::Enabled(Language::Rust),
            Some(language) => FileClassification::FeatureDisabled(language),
            None => FileClassification::UnrecognizedExtension,
        };
        assert_eq!(candidate.classification, expected, "{}", candidate.path.as_str());
        assert_eq!(
            candidate.language,
            match expected {
                FileClassification::Enabled(language) => Some(language),
                _ => None,
            }
        );
    }
    assert_eq!(discovered.candidates.len(), 3);
}

#[test]
fn per_file_total_and_count_budgets_preserve_stable_reasons() {
    let files: &[(&str, &[u8])] = &[("a.rs", b"1234"), ("b.rs", b"12"), ("c.txt", b"ignored")];
    let per_file =
        inventory(files, &ResourceLimits { max_file_bytes: 3, ..ResourceLimits::default() });
    assert_eq!(per_file.files[0].path.as_str(), "b.rs");
    assert!(matches!(
        per_file.omitted[0].reason,
        OmissionReason::FileTooLarge { limit: 3 }
    ));

    let aggregate =
        inventory(files, &ResourceLimits { max_total_bytes: 4, ..ResourceLimits::default() });
    assert_eq!(aggregate.files[0].path.as_str(), "a.rs");
    assert!(aggregate
        .omitted
        .iter()
        .any(|item| matches!(item.reason, OmissionReason::TotalBytesLimit { limit: 4 })));

    let count = inventory(files, &ResourceLimits { max_files: 0, ..ResourceLimits::default() });
    assert!(count.omitted.iter().any(|item| {
        item.path.as_str() == "c.txt" && item.reason == OmissionReason::UnrecognizedExtension
    }));
    assert_eq!(
        count
            .omitted
            .iter()
            .filter(|item| matches!(item.reason, OmissionReason::FileCountLimit { limit: 0 }))
            .count(),
        2
    );
}

#[test]
fn bounded_read_accepts_exact_limit_and_rejects_one_byte_more() {
    let exact = vec![b'x'; 8192];
    let over = vec![b'x'; 8193];
    let result = inventory(
        &[("exact.rs", &exact), ("over.rs", &over)],
        &ResourceLimits { max_file_bytes: 8192, ..ResourceLimits::default() },
    );
    assert_eq!(result.files.len(), 1);
    assert_eq!(result.files[0].path.as_str(), "exact.rs");
    assert_eq!(result.files[0].bytes.len(), 8192);
    assert!(result.omitted.iter().any(|item| {
        item.path.as_str() == "over.rs"
            && item.reason == OmissionReason::FileTooLarge { limit: 8192 }
    }));
}

#[test]
fn replacement_since_discovery_and_read_errors_are_not_admitted() {
    let limits = ResourceLimits::default();
    let discovered = discover(&[("changed.rs", b"old"), ("deleted.rs", b"old")], false);
    let changed = &discovered.candidates[0];
    let replaced = drive(changed, limits.max_file_bytes, b"replacement with another size");
    assert!(matches!(
        materialize_candidate(changed, &limits, replaced),
        MaterializedCandidate::Omitted(OmittedFile {
            reason: OmissionReason::ChangedDuringRead,
            ..
        })
    ));
    let deleted = &discovered.candidates[1];
    let gone = ReadAnswer {
        stat: Err(StableIoErrorKind::NotFound),
        chunk: Err(StableIoErrorKind::NotFound),
    };
    let ReadStep::Failed(failure) =
        read_bounded(begin_read(deleted, limits.max_file_bytes), gone)
    else {
        panic!("a deleted file cannot be read");
    };
    assert!(matches!(
        materialize_candidate(deleted, &limits, Err(failure)),
        MaterializedCandidate::Omitted(OmittedFile {
            reason: OmissionReason::ReadError { kind: StableIoErrorKind::NotFound },
            ..
        })
    ));
}

#[test]
fn a_file_that_changes_between_reads_is_told_from_a_stable_one() {
    let discovered = discover(&[("a.rs", b"ab")], false);
    let candidate = &discovered.candidates[0];
    let asked = Cell::new(0);
    let mut state = begin_read(candidate, 10);
    let failure = loop {
        asked.set(asked.get() + 1);
        let answer = match read_question(&state) {
            Ok(ReadQuestion::Read { .. }) if state.bytes.is_empty() => {
                ReadAnswer { stat: Ok(stat(2)), chunk: Ok(b"ab".to_vec()) }
            }
            Ok(ReadQuestion::Read { .. }) => {
                ReadAnswer { stat: Ok(stat(2)), chunk: Ok(Vec::new()) }
            }
            Ok(_) if !state.bytes.is_empty() => {
                ReadAnswer { stat: Ok(stat(3)), chunk: Ok(Vec::new()) }
            }
            Ok(_) => ReadAnswer { stat: Ok(stat(2)), chunk: Ok(Vec::new()) },
            Err(failure) => break failure,
        };
        match read_bounded(state, answer) {
            ReadStep::Ask(next) => state = next,
            ReadStep::Failed(failure) => break failure,
            ReadStep::Read(..) => panic!("the length changed"),
        }
    };
    assert_eq!(failure, ReadFailure::Changed);
    assert!(asked.get() > 3);
}

#[test]
fn composed_inventory_has_stable_order_hashes_summary_and_completeness() {
    let result = inventory(
        &[("z.rs", b"z"), ("a.rs", b"a"), ("m.bin", b"m")],
        &ResourceLimits::default(),
    );
    assert_eq!(
        result.files.iter().map(|file| file.path.as_str()).collect::<Vec<_>>(),
        ["a.rs", "z.rs"]
    );
    assert_eq!(result.files[0].blake3, blake3::hash(b"a").to_hex().to_string());
    assert_eq!(result.summary.admitted_files, 2);
    assert_eq!(result.summary.admitted_bytes, 2);
    assert_eq!(result.summary.omitted_files, 1);
    assert_eq!(result.completeness, InventoryCompleteness::Complete);
    assert_eq!(
        result.summary.omission_reasons,
        vec![(OmissionReason::UnrecognizedExtension, 1)]
    );
}

#[test]
fn failures_of_the_walk_are_omissions_and_a_path_outside_is_refused() {
    let events = vec![WalkEvent::Failed {
        relative: Some(b"locked".to_vec()),
        kind: StableIoErrorKind::PermissionDenied,
    }];
    let discovered = discover_sources(events, false, &enabled()).expect("discover");
    assert_eq!(
        discovered.omitted[0].reason,
        OmissionReason::ReadError { kind: StableIoErrorKind::PermissionDenied }
    );
    assert_eq!(discovered.omitted[0].impact, OmissionImpact::IncompleteSourceSet);

    let outside = vec![WalkEvent::Entry {
        depth: 1,
        relative: Some(b"../a.rs".to_vec()),
        absolute_path: b"/a.rs".to_vec(),
        metadata: Ok(EntryMetadata {
            kind: EntryKind::File,
            size_bytes: 0,
            mtime: None,
            identity: IDENTITY,
        }),
    }];
    assert!(matches!(
        discover_sources(outside, false, &enabled()),
        Err(CliError::ProjectRelativePath { .. })
    ));
}

#[test]
fn moments_before_the_epoch_keep_their_fraction() {
    assert_eq!(
        mtime(false, 5, 7),
        Some(MtimeHint { seconds_since_unix_epoch: 5, nanoseconds: 7 })
    );
    assert_eq!(
        mtime(true, 5, 0),
        Some(MtimeHint { seconds_since_unix_epoch: -5, nanoseconds: 0 })
    );
    assert_eq!(
        mtime(true, 5, 1),
        Some(MtimeHint { seconds_since_unix_epoch: -6, nanoseconds: 999_999_999 })
    );
    assert_eq!(mtime(false, u64::MAX, 0), None);
}

struct Cancelled;

impl Cancellation for Cancelled {
    fn is_cancelled(&self) -> bool {
        true
    }
}

#[test]
fn an_interruption_is_never_an_omission() {
    let limits = ResourceLimits::default();
    let discovered = discover(&[("notes.txt", b""), ("gone.rs", b"x")], false);
    for candidate in &discovered.candidates {
        let gone = || Err(ReadFailure::Io(StableIoErrorKind::NotFound));
        assert_eq!(
            materialize_candidate_checked(
                candidate,
                &limits,
                gone(),
                &Deadline::new(None),
                &Cancelled
            ),
            Err(CliError::Cancelled)
        );
        let expired = Deadline::new(Some(std::time::Duration::ZERO));
        assert_eq!(
            materialize_candidate_checked(candidate, &limits, gone(), &expired, &NeverCancelled),
            Err(CliError::Timeout)
        );
        assert!(matches!(
            materialize_candidate_checked(
                candidate,
                &limits,
                gone(),
                &Deadline::new(None),
                &NeverCancelled
            ),
            Ok(MaterializedCandidate::Omitted(_))
        ));
    }
}
