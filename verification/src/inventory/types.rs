//! Inventory data.

use vstd::prelude::*;
use vstd::string::*;
use crate::graph::{path_language, Language};
use crate::ordering::Keyed;
use crate::project::path::ProjectPath;
use crate::text::{decimal, push_decimal, push_text_key, text_key};

verus! {

/// The inventory classification for a discovered ordinary file.
#[derive(Debug, Clone, Copy, PartialEq, Eq, Hash, Structural)]
pub enum FileClassification {
    Enabled(Language),
    FeatureDisabled(Language),
    UnrecognizedExtension,
}

/// A stable, platform-neutral classification of a filesystem read failure.
#[derive(Debug, Clone, Copy, PartialEq, Eq, Hash, Structural)]
pub enum StableIoErrorKind {
    NotFound,
    PermissionDenied,
    AlreadyExists,
    InvalidInput,
    InvalidData,
    TimedOut,
    Interrupted,
    UnexpectedEof,
    WouldBlock,
    WriteZero,
    Other,
}

impl StableIoErrorKind {
    /// The stable tag.
    pub open spec fn spelling(self) -> Seq<char> {
        match self {
            StableIoErrorKind::NotFound => "not-found"@,
            StableIoErrorKind::PermissionDenied => "permission-denied"@,
            StableIoErrorKind::AlreadyExists => "already-exists"@,
            StableIoErrorKind::InvalidInput => "invalid-input"@,
            StableIoErrorKind::InvalidData => "invalid-data"@,
            StableIoErrorKind::TimedOut => "timed-out"@,
            StableIoErrorKind::Interrupted => "interrupted"@,
            StableIoErrorKind::UnexpectedEof => "unexpected-eof"@,
            StableIoErrorKind::WouldBlock => "would-block"@,
            StableIoErrorKind::WriteZero => "write-zero"@,
            StableIoErrorKind::Other => "other"@,
        }
    }

    /// Stable kebab-case tag for external reporting.
    pub fn as_str(self) -> (r: &'static str)
        ensures
            r@ == self.spelling(),
    {
        match self {
            StableIoErrorKind::NotFound => "not-found",
            StableIoErrorKind::PermissionDenied => "permission-denied",
            StableIoErrorKind::AlreadyExists => "already-exists",
            StableIoErrorKind::InvalidInput => "invalid-input",
            StableIoErrorKind::InvalidData => "invalid-data",
            StableIoErrorKind::TimedOut => "timed-out",
            StableIoErrorKind::Interrupted => "interrupted",
            StableIoErrorKind::UnexpectedEof => "unexpected-eof",
            StableIoErrorKind::WouldBlock => "would-block",
            StableIoErrorKind::WriteZero => "write-zero",
            StableIoErrorKind::Other => "other",
        }
    }
}

/// Why a discovered path was not admitted to an inventory.
#[derive(Debug, Clone, Copy, PartialEq, Eq, Structural)]
pub enum OmissionReason {
    UnrecognizedExtension,
    FeatureDisabled { language: Language },
    SymlinkFile,
    SymlinkDirectory,
    NotRegularFile,
    FileTooLarge { limit: usize },
    TotalBytesLimit { limit: usize },
    FileCountLimit { limit: usize },
    InvalidUtf8,
    ChangedDuringRead,
    ReadError { kind: StableIoErrorKind },
    ExtractionError,
}

impl OmissionReason {
    /// The stable tag.
    pub open spec fn tag_text(self) -> Seq<char> {
        match self {
            OmissionReason::UnrecognizedExtension => "unrecognized-extension"@,
            OmissionReason::FeatureDisabled { language } => "feature-disabled:"@ + language.tag(),
            OmissionReason::SymlinkFile => "symlink-file"@,
            OmissionReason::SymlinkDirectory => "symlink-directory"@,
            OmissionReason::NotRegularFile => "not-regular-file"@,
            OmissionReason::FileTooLarge { .. } => "file-too-large"@,
            OmissionReason::TotalBytesLimit { .. } => "total-bytes-limit"@,
            OmissionReason::FileCountLimit { .. } => "file-count-limit"@,
            OmissionReason::InvalidUtf8 => "invalid-utf8"@,
            OmissionReason::ChangedDuringRead => "changed-during-read"@,
            OmissionReason::ReadError { kind } => "read-error:"@ + kind.spelling(),
            OmissionReason::ExtractionError => "extraction-error"@,
        }
    }

    /// Stable kebab-case tag for external reporting and reason counts.
    pub fn tag(&self) -> (r: String)
        ensures
            r@ == self.tag_text(),
    {
        match self {
            OmissionReason::UnrecognizedExtension => "unrecognized-extension".to_owned(),
            OmissionReason::FeatureDisabled { language } => {
                let mut s = "feature-disabled:".to_owned();
                s.append((*language).as_str());
                s
            },
            OmissionReason::SymlinkFile => "symlink-file".to_owned(),
            OmissionReason::SymlinkDirectory => "symlink-directory".to_owned(),
            OmissionReason::NotRegularFile => "not-regular-file".to_owned(),
            OmissionReason::FileTooLarge { .. } => "file-too-large".to_owned(),
            OmissionReason::TotalBytesLimit { .. } => "total-bytes-limit".to_owned(),
            OmissionReason::FileCountLimit { .. } => "file-count-limit".to_owned(),
            OmissionReason::InvalidUtf8 => "invalid-utf8".to_owned(),
            OmissionReason::ChangedDuringRead => "changed-during-read".to_owned(),
            OmissionReason::ReadError { kind } => {
                let mut s = "read-error:".to_owned();
                s.append((*kind).as_str());
                s
            },
            OmissionReason::ExtractionError => "extraction-error".to_owned(),
        }
    }

    /// What the reason says beyond its tag: the limit that was met, or why an
    /// extraction was given up.
    pub open spec fn detail_text(self) -> Seq<char> {
        match self {
            OmissionReason::FileTooLarge { limit } => "limit="@ + decimal(limit as nat),
            OmissionReason::TotalBytesLimit { limit } => "limit="@ + decimal(limit as nat),
            OmissionReason::FileCountLimit { limit } => "limit="@ + decimal(limit as nat),
            OmissionReason::ExtractionError => "isolated extraction failed"@,
            _ => Seq::empty(),
        }
    }

    /// What the reason says beyond its tag.
    pub fn detail(&self) -> (r: String)
        ensures
            r@ == self.detail_text(),
    {
        match self {
            OmissionReason::FileTooLarge { limit } => limit_detail(*limit),
            OmissionReason::TotalBytesLimit { limit } => limit_detail(*limit),
            OmissionReason::FileCountLimit { limit } => limit_detail(*limit),
            OmissionReason::ExtractionError => "isolated extraction failed".to_owned(),
            _ => String::new(),
        }
    }
}

fn limit_detail(limit: usize) -> (r: String)
    ensures
        r@ == "limit="@ + decimal(limit as nat),
{
    let mut s = "limit=".to_owned();
    push_decimal(&mut s, limit as u64);
    s
}

/// A portable modification-time hint retained with admitted source bytes.
#[derive(Debug, Clone, Copy, PartialEq, Eq, PartialOrd, Ord, Hash, Structural)]
pub struct MtimeHint {
    pub seconds_since_unix_epoch: i64,
    pub nanoseconds: u32,
}

/// What identifies a file on its device, as far as the platform tells.
#[derive(Debug, Clone, Copy, PartialEq, Eq, Structural)]
pub struct StableIdentity {
    pub device: Option<u64>,
    pub inode: Option<u64>,
}

/// One discovered ordinary file. The absolute path is held as the bytes of its
/// native spelling.
#[derive(Debug, Clone, PartialEq, Eq)]
pub struct SourceCandidate {
    pub path: ProjectPath,
    pub language: Option<Language>,
    pub classification: FileClassification,
    pub size_bytes: u64,
    pub mtime: Option<MtimeHint>,
    pub identity: StableIdentity,
    pub absolute_path: Vec<u8>,
}

impl Keyed for SourceCandidate {
    open spec fn key(&self) -> Seq<u64> {
        text_key(self.path@)
    }

    fn sort_key(&self) -> (k: Vec<u64>) {
        self.path.sort_key()
    }
}

/// One admitted, UTF-8 source file. `bytes` are the exact hashed bytes.
#[derive(Debug, Clone, PartialEq, Eq)]
pub struct InventoryFile {
    pub path: ProjectPath,
    pub language: Language,
    pub bytes: Vec<u8>,
    pub text: String,
    pub blake3: String,
    pub mtime: Option<MtimeHint>,
}

/// What an omission means for the set of sources.
#[derive(Debug, Clone, Copy, PartialEq, Eq, Structural)]
pub enum OmissionImpact {
    /// A source may be missing.
    IncompleteSourceSet,
    /// The path is no source.
    IgnoredNonSource,
}

/// One discovered path excluded from the inventory.
#[derive(Debug, Clone, PartialEq, Eq)]
pub struct OmittedFile {
    pub path: ProjectPath,
    pub reason: OmissionReason,
    pub impact: OmissionImpact,
}

/// What leaving a path out means: it is a source if its extension is that of a
/// language.
pub open spec fn path_impact(path: Seq<char>) -> OmissionImpact {
    if path_language(path) is Some {
        OmissionImpact::IncompleteSourceSet
    } else {
        OmissionImpact::IgnoredNonSource
    }
}

impl OmittedFile {
    /// The omission of an ordinary path for a reason.
    pub open spec fn of(path: ProjectPath, reason: OmissionReason) -> OmittedFile {
        OmittedFile { path, reason, impact: path_impact(path@) }
    }

    /// An omitted path whose impact follows from its extension.
    pub fn new(path: ProjectPath, reason: OmissionReason) -> (r: Self)
        ensures
            r == OmittedFile::of(path, reason),
    {
        let impact = match Language::from_path(path.as_str()) {
            Some(_) => OmissionImpact::IncompleteSourceSet,
            None => OmissionImpact::IgnoredNonSource,
        };
        OmittedFile { path, reason, impact }
    }

    /// A directory that could not be walked: whatever lies in it may be missing.
    pub fn traversal_directory(path: ProjectPath, reason: OmissionReason) -> (r: Self)
        ensures
            r == (OmittedFile { path, reason, impact: OmissionImpact::IncompleteSourceSet }),
    {
        OmittedFile { path, reason, impact: OmissionImpact::IncompleteSourceSet }
    }

    /// A copy.
    pub fn copied(&self) -> (r: Self)
        ensures
            r == *self,
    {
        OmittedFile { path: self.path.clone(), reason: self.reason, impact: self.impact }
    }
}

impl Keyed for OmittedFile {
    open spec fn key(&self) -> Seq<u64> {
        text_key(self.path@) + text_key(self.reason.tag_text())
    }

    fn sort_key(&self) -> (k: Vec<u64>) {
        let mut k = self.path.sort_key();
        let tag = self.reason.tag();
        push_text_key(&mut k, tag.as_str());
        k
    }
}

/// What a metadata-only walk of a project found.
#[derive(Debug, Clone, PartialEq, Eq)]
pub struct SourceDiscovery {
    pub candidates: Vec<SourceCandidate>,
    pub omitted: Vec<OmittedFile>,
}

/// A candidate whose content was read, or why it was not.
#[derive(Debug, Clone, PartialEq, Eq)]
pub enum MaterializedCandidate {
    File(InventoryFile),
    Omitted(OmittedFile),
}

/// Stable aggregate counts for the scanning result.
#[derive(Debug, Clone, PartialEq, Eq)]
pub struct InventorySummary {
    pub admitted_files: usize,
    pub admitted_bytes: usize,
    pub omitted_files: usize,
    pub omission_reasons: Vec<(OmissionReason, usize)>,
}

/// Whether every discovered candidate was admitted.
#[derive(Debug, Clone, Copy, PartialEq, Eq, Structural)]
pub enum InventoryCompleteness {
    Complete,
    Partial,
}

/// Exact source inputs admitted by a deterministic bounded scan.
#[derive(Debug, Clone, PartialEq, Eq)]
pub struct SourceInventory {
    pub files: Vec<InventoryFile>,
    pub omitted: Vec<OmittedFile>,
    pub completeness: InventoryCompleteness,
    pub summary: InventorySummary,
}

} // verus!
