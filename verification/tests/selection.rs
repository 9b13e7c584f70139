//! Selection of the project, over directories that live in memory.

use code2graph::config::GlobalOptions;
use code2graph::error::CliError;
use code2graph::project::manifest::{has_marker, DirectoryEntry};
use code2graph::project::select::{
    begin_selection, question, select_project, FileKind, PathAnswer, PathQuestion,
    ProjectSelection, SelectionProvenance, SelectionStep,
};
use code2graph::request::{CliRequest, CommandRequest};

/// Paths with what stands there. What is not listed is missing.
struct Disk(Vec<(&'static str, FileKind)>);

impl Disk {
    fn kind(&self, path: &[u8]) -> Result<FileKind, String> {
        self.0
            .iter()
            .find(|(name, _)| name.as_bytes() == path)
            .map(|(_, kind)| *kind)
            .ok_or_else(|| "not found".to_owned())
    }

    fn entries(&self, directory: &[u8]) -> Vec<DirectoryEntry> {
        let mut prefix = directory.to_vec();
        if prefix != b"/" {
            prefix.push(b'/');
        }
        self.0
            .iter()
            .filter_map(|(name, kind)| {
                let rest = name.as_bytes().strip_prefix(prefix.as_slice())?;
                if rest.is_empty() || rest.contains(&b'/') {
                    return None;
                }
                Some(DirectoryEntry {
                    name: String::from_utf8(rest.to_vec()).ok(),
                    is_file: *kind == FileKind::File,
                })
            })
            .collect()
    }

    fn answer(&self, question: PathQuestion) -> PathAnswer {
        let mut answer = PathAnswer {
            kind: Err("not asked".to_owned()),
            canonical: Err("not asked".to_owned()),
            entries: Vec::new(),
        };
        match question {
            PathQuestion::Inspect { path } | PathQuestion::Stat { path } => {
                answer.kind = self.kind(&path);
            }
            PathQuestion::Canonicalize { path } => {
                answer.canonical = self.kind(&path).map(|_| path);
            }
            PathQuestion::List { path } => answer.entries = self.entries(&path),
        }
        answer
    }

    fn select(
        &self,
        root: Option<&str>,
        path: Option<&str>,
        cwd: &str,
    ) -> Result<ProjectSelection, CliError> {
        let bytes = |text: &str| text.as_bytes().to_vec();
        let request = CliRequest {
            global: GlobalOptions { root: root.map(bytes), ..GlobalOptions::default() },
            command: CommandRequest::Index {
                path: path.map(bytes),
                force: false,
                trust_mtime: false,
            },
        };
        let mut step = begin_selection(cwd.as_bytes());
        loop {
            match step {
                SelectionStep::Done(result) => return result,
                SelectionStep::Ask(state) => {
                    let answer = self.answer(question(&state));
                    step = select_project(&request, state, answer);
                }
            }
        }
    }
}

const DIR: FileKind = FileKind::Directory;
const FILE: FileKind = FileKind::File;

#[test]
fn root_has_precedence_and_never_climbs() {
    let disk = Disk(vec![
        ("/", DIR),
        ("/t", DIR),
        ("/t/explicit", DIR),
        ("/t/explicit/Cargo.toml", FILE),
        ("/t/explicit/nested", DIR),
        ("/t/explicit/nested/main.rs", FILE),
    ]);
    let selection = disk
        .select(Some("/t/explicit/nested"), Some("/t/explicit/nested/main.rs"), "/t")
        .unwrap();
    assert_eq!(selection.canonical_root, b"/t/explicit/nested");
    assert_eq!(selection.provenance, SelectionProvenance::RootArgument);
}

#[test]
fn file_selects_nearest_marker_or_its_parent() {
    let disk = Disk(vec![
        ("/", DIR),
        ("/t", DIR),
        ("/t/project", DIR),
        ("/t/project/package.json", FILE),
        ("/t/project/src", DIR),
        ("/t/project/src/deep", DIR),
        ("/t/project/src/deep/main.ts", FILE),
        ("/t/isolated", DIR),
        ("/t/isolated/file.rs", FILE),
    ]);
    let selection = disk.select(None, Some("/t/project/src/deep/main.ts"), "/t").unwrap();
    assert_eq!(selection.canonical_root, b"/t/project");
    assert_eq!(selection.provenance, SelectionProvenance::IndexFileManifest);
    assert_eq!(selection.canonical_source, Some(b"/t/project/src/deep/main.ts".to_vec()));

    let selection = disk.select(None, Some("/t/project/package.json"), "/t").unwrap();
    assert_eq!(selection.canonical_root, b"/t/project");
    assert_eq!(selection.provenance, SelectionProvenance::IndexFileManifest);

    let selection = disk.select(None, Some("/t/isolated/file.rs"), "/t").unwrap();
    assert_eq!(selection.canonical_root, b"/t/isolated");
    assert_eq!(selection.provenance, SelectionProvenance::IndexFileParent);
}

#[test]
fn explicit_external_file_discovers_nearest_manifest_or_falls_back_to_parent() {
    let disk = Disk(vec![
        ("/", DIR),
        ("/t", DIR),
        ("/t/cwd", DIR),
        ("/t/external", DIR),
        ("/t/external/project", DIR),
        ("/t/external/project/Cargo.toml", FILE),
        ("/t/external/project/src", DIR),
        ("/t/external/project/src/deep", DIR),
        ("/t/external/project/src/deep/main.rs", FILE),
        ("/t/isolated", DIR),
        ("/t/isolated/main.rs", FILE),
    ]);
    let selection =
        disk.select(None, Some("/t/external/project/src/deep/main.rs"), "/t/cwd").unwrap();
    assert_eq!(selection.canonical_root, b"/t/external/project");
    assert_eq!(selection.provenance, SelectionProvenance::IndexFileManifest);
    let selection = disk.select(None, Some("/t/isolated/main.rs"), "/t/cwd").unwrap();
    assert_eq!(selection.canonical_root, b"/t/isolated");
    assert_eq!(selection.provenance, SelectionProvenance::IndexFileParent);
}

#[test]
fn cwd_and_index_directory_do_not_climb() {
    let disk = Disk(vec![
        ("/", DIR),
        ("/t", DIR),
        ("/t/project", DIR),
        ("/t/project/go.mod", FILE),
        ("/t/project/nested", DIR),
    ]);
    let selection = disk.select(None, Some("/t/project/nested"), "/t").unwrap();
    assert_eq!(selection.canonical_root, b"/t/project/nested");
    let selection = disk.select(None, None, "/t/project/nested").unwrap();
    assert_eq!(selection.canonical_root, b"/t/project/nested");
    assert_eq!(selection.provenance, SelectionProvenance::CurrentDirectory);
}

#[test]
fn rejects_invalid_cwd_before_other_selection_inputs() {
    let disk = Disk(vec![("/", DIR), ("/t", DIR), ("/t/root", DIR), ("/t/cwd-file", FILE)]);
    assert!(matches!(
        disk.select(Some("/t/root"), None, "/t/cwd-file"),
        Err(CliError::ProjectPath { .. })
    ));
}

#[test]
fn rejects_symlink_roots_and_sources() {
    let disk = Disk(vec![
        ("/", DIR),
        ("/t", DIR),
        ("/t/target", DIR),
        ("/t/target/source.rs", FILE),
        ("/t/root-link", FileKind::Symlink),
        ("/t/source-link.rs", FileKind::Symlink),
        ("/t/target-link", FileKind::Symlink),
        ("/t/target-link/source.rs", FILE),
    ]);
    assert!(matches!(
        disk.select(Some("/t/root-link"), None, "/t"),
        Err(CliError::ProjectSymlink { .. })
    ));
    assert!(matches!(
        disk.select(None, Some("/t/source-link.rs"), "/t"),
        Err(CliError::ProjectSymlink { .. })
    ));
    assert!(matches!(
        disk.select(None, Some("/t/target-link/source.rs"), "/t"),
        Err(CliError::ProjectSymlink { .. })
    ));
}

#[test]
fn relative_paths_start_at_the_current_directory() {
    let disk = Disk(vec![("/", DIR), ("/t", DIR), ("/t/a", DIR)]);
    let selection = disk.select(Some("a"), None, "/t").unwrap();
    assert_eq!(selection.canonical_root, b"/t/a");
    assert!(matches!(
        disk.select(Some("missing"), None, "/t"),
        Err(CliError::ProjectPath { .. })
    ));
}

fn file(name: &str) -> DirectoryEntry {
    DirectoryEntry { name: Some(name.to_owned()), is_file: true }
}

#[test]
fn recognizes_exact_and_glob_marker_families() {
    for marker in [
        "Cargo.toml",
        "package.json",
        "pyproject.toml",
        "go.mod",
        "pom.xml",
        "CMakeLists.txt",
        "Gemfile",
        "composer.json",
        "Package.swift",
        "pubspec.yaml",
        "foundry.toml",
        "selene.toml",
        "terraform.tf",
        "project.csproj",
        "requirements-dev.txt",
        "project.rockspec",
        "project.lpi",
    ] {
        assert!(has_marker(&vec![file(marker)]), "{marker}");
    }
}

#[test]
fn matches_marker_names_case_sensitively_and_only_for_files() {
    let mut entries = vec![
        file("cargo.toml"),
        DirectoryEntry { name: Some("project.csproj".to_owned()), is_file: false },
    ];
    assert!(!has_marker(&entries));
    entries.push(file("hardhat.config.ts"));
    assert!(has_marker(&entries));
}
