//! Paths, locations, failures, deadlines and configuration.

use std::time::Duration;

use code2graph::cache::location::{CacheLocation, ProjectKey};
use code2graph::cache::types::ResolverCacheTier;
use code2graph::config::{
    load_query_binding_rules, ConfigRead, GlobalOptions, QueryBindingRule, RawQueryBindingRule,
    ResolverTier, ResourceLimits,
};
use code2graph::deadline::{Cancellation, Deadline, NeverCancelled};
use code2graph::error::CliError;
use code2graph::exit::ExitCode;
use code2graph::graph::{
    ByteSpan, Confidence, Descriptor, FileFacts, Language, Package, Symbol, SymbolId, SymbolKind,
    Visibility,
};
use code2graph::package_assignment::types::{
    ManifestInput, ManifestOutcome, ManifestParserKind, PackageAssignmentSet,
    PackageDiagnosticKind, SourcePackageAssignment,
};
use code2graph::project::native::{NativePath, PathComponent, Platform};
use code2graph::project::path::ProjectPath;
use code2graph::result::OutputStatus;
use code2graph::worker::WorkerFailure;

fn path(text: &str) -> ProjectPath {
    ProjectPath::new(text.as_bytes()).expect("path")
}

#[test]
fn injected_base_is_outside_the_project_and_stable() {
    let root = b"/canonical/project";
    let base = b"/external/cache";
    let first = CacheLocation::for_project(Some(base), root).expect("injected base");
    let second = CacheLocation::for_project(Some(base), root).expect("injected base");
    assert_eq!(first, second);
    assert!(first.database_path.starts_with(base));
    assert!(!first.database_path.starts_with(root));
    assert!(first
        .project_key
        .to_text()
        .chars()
        .all(|ch| ch.is_ascii_hexdigit() && !ch.is_ascii_uppercase()));
    assert_eq!(first.project_key.to_text().len(), 64);
}

#[test]
fn a_base_in_the_project_is_refused() {
    let root = b"/canonical/project";
    for base in ["/canonical/project", "/canonical/project/.cache", "/canonical//project/./x"] {
        assert!(CacheLocation::for_project(Some(base.as_bytes()), root).is_none(), "{base}");
    }
    for base in ["/canonical/project-cache", "/canonical", "canonical/project"] {
        assert!(CacheLocation::for_project(Some(base.as_bytes()), root).is_some(), "{base}");
    }
    assert!(CacheLocation::for_project(Some(b"/cache"), b"/").is_none());
}

#[test]
fn distinct_roots_have_distinct_keys() {
    assert_ne!(
        ProjectKey::from_canonical_root(b"/canonical/a"),
        ProjectKey::from_canonical_root(b"/canonical/b")
    );
}

#[test]
fn keys_of_platforms_are_distinct() {
    let on = |platform: Platform| ProjectKey::from_native_root(platform, b"/canonical/a");
    assert_eq!(on(Platform::Unix), ProjectKey::from_canonical_root(b"/canonical/a"));
    assert_ne!(on(Platform::Unix), on(Platform::Windows));
    assert_ne!(on(Platform::Unix), on(Platform::Other));
    assert_ne!(on(Platform::Windows), on(Platform::Other));
    let mut preimage = b"code2graph.cache.project-key.v1\0windows-utf16le\0".to_vec();
    preimage.extend_from_slice(&12_u64.to_le_bytes());
    preimage.extend_from_slice(b"/canonical/a");
    assert_eq!(on(Platform::Windows).as_bytes(), *blake3::hash(&preimage).as_bytes());
}

fn normal(name: &str) -> PathComponent {
    PathComponent::Normal(name.as_bytes().to_vec())
}

fn volume(name: &str) -> PathComponent {
    PathComponent::Prefix(name.as_bytes().to_vec())
}

fn native(spelled: &str, absolute: bool, components: Vec<PathComponent>) -> NativePath {
    NativePath { spelled: spelled.as_bytes().to_vec(), absolute, components }
}

#[test]
fn rejects_windows_prefixes_and_cross_volume_sources() {
    for path in [
        native(r"C:src\lib.rs", false, vec![volume("C:"), normal("src"), normal("lib.rs")]),
        native(
            r"C:\src\lib.rs",
            true,
            vec![volume("C:"), PathComponent::RootDir, normal("src"), normal("lib.rs")],
        ),
        native(
            r"\src\lib.rs",
            false,
            vec![PathComponent::RootDir, normal("src"), normal("lib.rs")],
        ),
    ] {
        assert!(matches!(
            ProjectPath::from_native(Platform::Windows, &path),
            Err(CliError::ProjectRelativePath { .. })
        ));
    }
    let root = native(
        r"C:\project",
        true,
        vec![volume("C:"), PathComponent::RootDir, normal("project")],
    );
    let source = native(
        r"D:\src\lib.rs",
        true,
        vec![volume("D:"), PathComponent::RootDir, normal("src"), normal("lib.rs")],
    );
    assert!(matches!(
        ProjectPath::from_canonical_native_source(Platform::Windows, &root, &source, b""),
        Err(CliError::ProjectPathOutsideRoot { .. })
    ));
}

#[test]
fn windows_paths_are_normalized_to_slashes() {
    let relative = native(r"src\lib.rs", false, vec![normal("src"), normal("lib.rs")]);
    let read = ProjectPath::from_native(Platform::Windows, &relative).expect("path");
    assert_eq!(read.as_str(), "src/lib.rs");
    let root = native(
        r"C:\project",
        true,
        vec![volume("C:"), PathComponent::RootDir, normal("project")],
    );
    let source = native(
        r"C:\project\src\lib.rs",
        true,
        vec![
            volume("C:"),
            PathComponent::RootDir,
            normal("project"),
            normal("src"),
            normal("lib.rs"),
        ],
    );
    let below = |root: &NativePath, rest: &[u8]| {
        ProjectPath::from_canonical_native_source(Platform::Windows, root, &source, rest)
    };
    assert_eq!(below(&root, br"src\lib.rs").expect("path").as_str(), "src/lib.rs");
    let reason = |found: Result<ProjectPath, CliError>| match found {
        Err(CliError::ProjectRelativePath { reason, .. }) => reason,
        other => panic!("{other:?}"),
    };
    assert_eq!(
        reason(below(&relative, b"")),
        "root and source must be canonical absolute paths"
    );
    assert_eq!(reason(below(&source, b"")), "path must be nonempty and relative");
    assert_eq!(
        reason(below(&root, br"src\..\lib.rs")),
        "path may not contain '.' or '..' components"
    );
    let read_reason = |platform: Platform, path: &NativePath| {
        reason(ProjectPath::from_native(platform, path))
    };
    let lost = native(
        r"src\x",
        false,
        vec![PathComponent::Normal(b"\xed\xa0\x80".to_vec()), normal("x")],
    );
    assert_eq!(read_reason(Platform::Windows, &lost), "path must be UTF-8");
    assert_eq!(
        read_reason(Platform::Windows, &native("C:x", false, vec![volume("C:"), normal("x")])),
        "path may not contain root, prefix, '.' or '..' components"
    );
    let up = native("a/../b", false, vec![normal("a"), PathComponent::ParentDir, normal("b")]);
    for platform in [Platform::Unix, Platform::Windows, Platform::Other] {
        assert_eq!(
            read_reason(platform, &up),
            "path may not contain '.' or '..' components"
        );
    }
    let here = native("a/./b", false, vec![normal("a"), normal("b")]);
    assert_eq!(
        ProjectPath::from_native(Platform::Other, &here).expect("path").as_str(),
        "a/b"
    );
    assert_eq!(
        read_reason(Platform::Other, &native("x", false, Vec::new())),
        "path must be nonempty"
    );
}

#[test]
fn project_key_preserves_non_utf8_native_path_bytes() {
    assert_ne!(
        ProjectKey::from_canonical_root(b"/canonical/\xff"),
        ProjectKey::from_canonical_root("/canonical/\u{fffd}".as_bytes())
    );
}

struct Cancelled;

impl Cancellation for Cancelled {
    fn is_cancelled(&self) -> bool {
        true
    }
}

#[test]
fn zero_deadline_is_expired_and_remaining_is_monotonic() {
    let deadline = Deadline::new(Some(Duration::ZERO));
    assert_eq!(deadline.remaining(), Some(Duration::ZERO));
    assert!(matches!(deadline.check(&NeverCancelled), Err(CliError::Timeout)));
    assert_eq!(Deadline::new(None).remaining(), None);
}

#[test]
fn a_generous_deadline_is_not_expired() {
    let deadline = Deadline::new(Some(Duration::from_secs(3600)));
    assert!(deadline.check(&NeverCancelled).is_ok());
    assert!(deadline.remaining().expect("configured") <= Duration::from_secs(3600));
}

#[test]
fn cancellation_is_distinct_from_timeout() {
    assert!(matches!(Deadline::new(None).check(&Cancelled), Err(CliError::Cancelled)));
    assert!(matches!(
        Deadline::new(Some(Duration::ZERO)).check(&Cancelled),
        Err(CliError::Cancelled)
    ));
}

#[test]
fn every_error_has_the_planned_exit_code() {
    assert_eq!(CliError::NoMatch.exit_code(), ExitCode::NoMatch);
    assert_eq!(CliError::Usage("x".into()).exit_code(), ExitCode::Usage);
    assert_eq!(CliError::Ambiguous.exit_code(), ExitCode::Ambiguous);
    for error in [
        CliError::Cache("x".into()),
        CliError::Index("x".into()),
        CliError::Unsupported("x".into()),
        CliError::ProjectPath { path: "project".into(), reason: "missing".into() },
        CliError::ProjectSymlink { path: "project".into() },
        CliError::ProjectRelativePath { path: "source".into(), reason: "invalid".into() },
        CliError::ProjectPathOutsideRoot { root: "project".into(), path: "source".into() },
        CliError::Timeout,
        CliError::Cancelled,
        CliError::Worker(WorkerFailure::Spawn),
        CliError::Unavailable { command: "status".into() },
        CliError::FrozenSnapshotMissing,
        CliError::PartialNotAllowed,
        CliError::Fatal("x".into()),
    ] {
        assert_eq!(error.exit_code(), ExitCode::Operational);
    }
}

#[test]
fn every_error_has_a_machine_status() {
    let cases = [
        (CliError::NoMatch, OutputStatus::NoMatch),
        (CliError::Usage("x".into()), OutputStatus::Error),
        (CliError::Ambiguous, OutputStatus::Ambiguous),
        (CliError::Cache("x".into()), OutputStatus::Error),
        (CliError::Index("x".into()), OutputStatus::Error),
        (CliError::Unsupported("x".into()), OutputStatus::Unsupported),
        (
            CliError::ProjectPath { path: "project".into(), reason: "missing".into() },
            OutputStatus::Error,
        ),
        (CliError::ProjectSymlink { path: "project".into() }, OutputStatus::Error),
        (
            CliError::ProjectRelativePath { path: "source".into(), reason: "invalid".into() },
            OutputStatus::Error,
        ),
        (
            CliError::ProjectPathOutsideRoot { root: "project".into(), path: "source".into() },
            OutputStatus::Error,
        ),
        (CliError::Timeout, OutputStatus::Timeout),
        (CliError::Cancelled, OutputStatus::Error),
        (CliError::Worker(WorkerFailure::Spawn), OutputStatus::Error),
        (CliError::Unavailable { command: "status".into() }, OutputStatus::Unsupported),
        (CliError::Fatal("x".into()), OutputStatus::Error),
    ];
    for (error, expected) in cases {
        assert_eq!(OutputStatus::from(&error), expected);
    }
}

#[test]
fn errors_say_what_went_wrong() {
    assert_eq!(CliError::NoMatch.message(), "no matching result");
    assert_eq!(CliError::Cache("x".into()).message(), "cache failure: x");
    assert_eq!(
        CliError::ProjectPathOutsideRoot { root: "/p".into(), path: "/q/a.rs".into() }.message(),
        "source path /q/a.rs is outside project root /p"
    );
    assert_eq!(
        CliError::ProjectSymlink { path: b"/p/\xff".to_vec() }.message(),
        "project path /p/\u{fffd} is a symlink"
    );
}

#[test]
fn every_process_code_is_frozen() {
    assert_eq!(ExitCode::Success.as_i32(), 0);
    assert_eq!(ExitCode::NoMatch.as_i32(), 1);
    assert_eq!(ExitCode::Usage.as_i32(), 2);
    assert_eq!(ExitCode::Ambiguous.as_i32(), 3);
    assert_eq!(ExitCode::Operational.as_i32(), 4);
}

fn facts(id: SymbolId) -> FileFacts {
    FileFacts {
        file: "src/lib.rs".into(),
        lang: "rust".into(),
        symbols: vec![Symbol {
            id,
            name: "f".into(),
            kind: SymbolKind::Function,
            visibility: Visibility::Public,
            entry_points: vec![],
            file: "src/lib.rs".into(),
            line: 1,
            span: ByteSpan { start: 0, end: 1 },
            signature: String::new(),
        }],
        references: vec![],
        scopes: vec![],
        bindings: vec![],
        ffi_exports: vec![],
    }
}

#[test]
fn applies_only_the_matching_file_assignment() {
    let package = Package { manager: "cargo".into(), name: "pkg".into(), version: "1".into() };
    let mut selected = facts(SymbolId::global("rust", vec![Descriptor::Term("f".into())]));
    let mut unselected = facts(SymbolId::global("rust", vec![Descriptor::Term("g".into())]));
    unselected.file = "src/other.rs".into();
    let set = PackageAssignmentSet {
        manifests: vec![],
        assignments: vec![SourcePackageAssignment {
            source_path: path("src/lib.rs"),
            manifest_path: Some("Cargo.toml".into()),
            package: Some(package),
        }],
        diagnostics: vec![],
    };
    set.enrich_file_facts(&mut selected);
    set.enrich_file_facts(&mut unselected);
    assert!(selected.symbols[0].id.to_scip_string().contains("cargo pkg 1"));
    assert_eq!(unselected.symbols[0].id.to_scip_string(), "codegraph . . . g.");
}

#[test]
fn canonical_records_include_outcome_parameters_and_do_not_delimit_collide() {
    let base = ManifestInput {
        path: "Cargo.toml".into(),
        content_hash: None,
        parser: ManifestParserKind::Cargo,
        outcome: ManifestOutcome::Failed(PackageDiagnosticKind::TooLarge { limit: 10 }),
    };
    let mut changed = base.clone();
    changed.outcome = ManifestOutcome::Failed(PackageDiagnosticKind::TooLarge { limit: 11 });
    assert_ne!(base.fingerprint_record(), changed.fingerprint_record());

    let first = SourcePackageAssignment {
        source_path: path("a\u{1f}b"),
        manifest_path: None,
        package: None,
    };
    let second = SourcePackageAssignment {
        source_path: path("a"),
        manifest_path: Some("b".into()),
        package: None,
    };
    assert_ne!(first.fingerprint_record(), second.fingerprint_record());
}

#[test]
fn canonical_assignment_validation_accepts_empty_package_fields_and_rejects_alias_encodings() {
    let assignment = SourcePackageAssignment {
        source_path: path("src/main.go"),
        manifest_path: Some("go.mod".into()),
        package: Some(Package {
            manager: "go".into(),
            name: "example.test/project".into(),
            version: String::new(),
        }),
    };
    let canonical = assignment.canonical_identity();
    assert!(SourcePackageAssignment::is_canonical_identity_for_path(&canonical, "src/main.go"));
    let alias = canonical.replacen("10:assignment", "010:assignment", 1);
    assert!(!SourcePackageAssignment::is_canonical_identity_for_path(&alias, "src/main.go"));
    assert!(!SourcePackageAssignment::is_canonical_identity_for_path(&canonical, "src/other.go"));
}

#[test]
fn unassigned_sources_have_a_fixed_identity() {
    let identity = SourcePackageAssignment {
        source_path: path("src/a.rs"),
        manifest_path: None,
        package: None,
    }
    .canonical_identity();
    assert_eq!(identity, "10:assignment8:src/a.rs4:none");
}

#[test]
fn normalizes_relative_paths() {
    assert_eq!(ProjectPath::new(b"src//lib.rs").unwrap().as_str(), "src/lib.rs");
}

#[test]
fn rejects_absolute_and_traversal_paths() {
    for text in ["", ".", "..", "src/./lib.rs", "src/../lib.rs", "/src/lib.rs"] {
        assert!(matches!(
            ProjectPath::new(text.as_bytes()),
            Err(CliError::ProjectRelativePath { .. })
        ));
    }
}

#[test]
fn rejects_non_utf8_paths() {
    assert!(matches!(
        ProjectPath::new(b"src/\xff.rs"),
        Err(CliError::ProjectRelativePath { .. })
    ));
}

#[test]
fn requires_canonical_containment() {
    assert_eq!(
        ProjectPath::from_canonical_source(b"/tmp/project", b"/tmp/project/src/lib.rs")
            .unwrap()
            .as_str(),
        "src/lib.rs"
    );
    assert!(matches!(
        ProjectPath::from_canonical_source(b"/tmp/project", b"/tmp/other/lib.rs"),
        Err(CliError::ProjectPathOutsideRoot { .. })
    ));
}

#[test]
fn tier_confidence_defaults_are_the_planned_values() {
    assert_eq!(ResolverTier::Name.default_min_confidence(), Confidence::NameOnly);
    assert_eq!(ResolverTier::Scope.default_min_confidence(), Confidence::Scoped);
    assert_eq!(ResolverTier::Dense.default_min_confidence(), Confidence::Heuristic);

    let options =
        GlobalOptions { min_confidence: Some(Confidence::Exact), ..GlobalOptions::default() };
    assert_eq!(options.effective_min_confidence(), Confidence::Exact);
}

#[test]
fn resolver_tier_cache_conversions_are_lossless() {
    for tier in [ResolverTier::Name, ResolverTier::Scope, ResolverTier::Dense] {
        assert_eq!(ResolverTier::from(ResolverCacheTier::from(tier)), tier);
    }
}

#[test]
fn default_limits_are_the_documented_ones() {
    let limits = ResourceLimits::default();
    assert_eq!(limits.max_files, 10_000);
    assert_eq!(limits.max_file_bytes, 1_048_576);
    assert_eq!(limits.max_total_bytes, 268_435_456);
    assert_eq!(limits.max_depth, 32);
    assert_eq!(limits.result_limit, 50);
    assert_eq!(limits.timeout, None);
}

fn raw(lang: &str, construct: &str, sql_arg: usize) -> RawQueryBindingRule {
    RawQueryBindingRule { lang: lang.into(), construct: construct.into(), sql_arg }
}

#[test]
fn absent_config_file_yields_no_custom_rules() {
    let rules = load_query_binding_rules(ConfigRead::Absent, "/p/code2graph.toml")
        .expect("absent file is not an error");
    assert!(rules.is_empty());
}

#[test]
fn valid_config_file_yields_its_rules() {
    let rules = load_query_binding_rules(
        ConfigRead::Tables(vec![raw("rust", "mydb::sql", 0), raw("python", "app.raw", 1)]),
        "/p/code2graph.toml",
    )
    .expect("valid config parses");
    assert_eq!(
        rules,
        vec![
            QueryBindingRule { lang: Language::Rust, construct: "mydb::sql".into(), sql_arg: 0 },
            QueryBindingRule { lang: Language::Python, construct: "app.raw".into(), sql_arg: 1 },
        ]
    );
}

#[test]
fn unknown_language_is_rejected_with_a_clear_message() {
    let error = load_query_binding_rules(
        ConfigRead::Tables(vec![raw("klingon", "mydb::sql", 0)]),
        "/p/code2graph.toml",
    )
    .expect_err("unknown lang is rejected");
    assert!(error.message().contains("klingon"));
    assert_eq!(
        error,
        CliError::Fatal("/p/code2graph.toml: unknown query-binding language \"klingon\"".into())
    );
}

#[test]
fn empty_construct_is_rejected() {
    let error =
        load_query_binding_rules(ConfigRead::Tables(vec![raw("rust", "", 0)]), "c.toml")
            .expect_err("empty construct");
    assert_eq!(
        error,
        CliError::Fatal("c.toml: query-binding rule for \"rust\" has an empty construct".into())
    );
}

#[test]
fn malformed_toml_is_rejected() {
    assert!(
        load_query_binding_rules(ConfigRead::Malformed { why: "bad".into() }, "c.toml").is_err()
    );
    assert_eq!(
        load_query_binding_rules(ConfigRead::Unreadable { why: "denied".into() }, "c.toml"),
        Err(CliError::Fatal("failed to read c.toml: denied".into()))
    );
}
