//! Package-assignment data and its canonical fingerprint records.

use vstd::prelude::*;
use vstd::string::*;
use vstd::utf8::*;
use crate::graph::Package;
use crate::inventory::types::StableIoErrorKind;
use crate::package_assignment::records::{
    canonical_record, encoded, fields_fit, parse_canonical_record, record, record_parses_back,
    records_do_not_collide, texts,
};
use crate::project::path::{rejection, ProjectPath};
use crate::text::{bytes_determine_text, decimal, decimal_text, encode_concat, same_text};

verus! {

/// Core manifest parser selected from an exact manifest basename.
#[derive(Debug, Clone, Copy, PartialEq, Eq, PartialOrd, Ord, Structural)]
pub enum ManifestParserKind {
    Cargo,
    Npm,
    Go,
    Pyproject,
}

impl ManifestParserKind {
    /// The basename of the manifests that the parser reads.
    pub open spec fn basename(self) -> Seq<char> {
        match self {
            ManifestParserKind::Cargo => "Cargo.toml"@,
            ManifestParserKind::Npm => "package.json"@,
            ManifestParserKind::Go => "go.mod"@,
            ManifestParserKind::Pyproject => "pyproject.toml"@,
        }
    }

    /// The parser for a basename.
    pub fn for_name(name: &str) -> (r: Option<Self>)
        ensures
            match r {
                Some(kind) => kind.basename() == name@,
                None => forall|kind: ManifestParserKind| kind.basename() != name@,
            },
    {
        if same_text(name, "Cargo.toml") {
            Some(ManifestParserKind::Cargo)
        } else if same_text(name, "package.json") {
            Some(ManifestParserKind::Npm)
        } else if same_text(name, "go.mod") {
            Some(ManifestParserKind::Go)
        } else if same_text(name, "pyproject.toml") {
            Some(ManifestParserKind::Pyproject)
        } else {
            None
        }
    }

    /// The stable spelling.
    pub open spec fn spelling(self) -> Seq<char> {
        match self {
            ManifestParserKind::Cargo => "cargo"@,
            ManifestParserKind::Npm => "npm"@,
            ManifestParserKind::Go => "go"@,
            ManifestParserKind::Pyproject => "pypi"@,
        }
    }

    /// The stable spelling.
    pub fn as_str(self) -> (r: &'static str)
        ensures
            r@ == self.spelling(),
    {
        match self {
            ManifestParserKind::Cargo => "cargo",
            ManifestParserKind::Npm => "npm",
            ManifestParserKind::Go => "go",
            ManifestParserKind::Pyproject => "pypi",
        }
    }
}

/// A stable reason why a candidate manifest could not yield a package.
#[derive(Debug, Clone, Copy, PartialEq, Eq, Structural)]
pub enum PackageDiagnosticKind {
    Symlink,
    NotRegularFile,
    TooLarge { limit: usize },
    InvalidUtf8,
    ChangedDuringRead,
    ReadError { kind: StableIoErrorKind },
    Unparseable,
}

impl PackageDiagnosticKind {
    /// The stable tag.
    pub open spec fn tag_text(self) -> Seq<char> {
        match self {
            PackageDiagnosticKind::Symlink => "symlink"@,
            PackageDiagnosticKind::NotRegularFile => "not-regular-file"@,
            PackageDiagnosticKind::TooLarge { .. } => "file-too-large"@,
            PackageDiagnosticKind::InvalidUtf8 => "invalid-utf8"@,
            PackageDiagnosticKind::ChangedDuringRead => "changed-during-read"@,
            PackageDiagnosticKind::ReadError { kind } => "read-error:"@ + kind.spelling(),
            PackageDiagnosticKind::Unparseable => "unparseable"@,
        }
    }

    /// Stable diagnostic tag suitable for display and grouping.
    pub fn tag(&self) -> (r: String)
        ensures
            r@ == self.tag_text(),
    {
        match self {
            PackageDiagnosticKind::Symlink => "symlink".to_owned(),
            PackageDiagnosticKind::NotRegularFile => "not-regular-file".to_owned(),
            PackageDiagnosticKind::TooLarge { .. } => "file-too-large".to_owned(),
            PackageDiagnosticKind::InvalidUtf8 => "invalid-utf8".to_owned(),
            PackageDiagnosticKind::ChangedDuringRead => "changed-during-read".to_owned(),
            PackageDiagnosticKind::ReadError { kind } => {
                let mut s = "read-error:".to_owned();
                s.append((*kind).as_str());
                s
            },
            PackageDiagnosticKind::Unparseable => "unparseable".to_owned(),
        }
    }

    /// The fields of the diagnostic in a record, its parameters included.
    pub open spec fn fields(self) -> Seq<Seq<char>> {
        match self {
            PackageDiagnosticKind::Symlink => seq!["symlink"@],
            PackageDiagnosticKind::NotRegularFile => seq!["not-regular-file"@],
            PackageDiagnosticKind::TooLarge { limit } => seq![
                "file-too-large"@,
                decimal(limit as nat),
            ],
            PackageDiagnosticKind::InvalidUtf8 => seq!["invalid-utf8"@],
            PackageDiagnosticKind::ChangedDuringRead => seq!["changed-during-read"@],
            PackageDiagnosticKind::ReadError { kind } => seq!["read-error"@, kind.spelling()],
            PackageDiagnosticKind::Unparseable => seq!["unparseable"@],
        }
    }

    /// Appends the fields of the diagnostic.
    fn push_fields(&self, out: &mut Vec<String>)
        ensures
            texts(final(out)@) == texts(old(out)@) + self.fields(),
    {
        let ghost start = texts(out@);
        match self {
            PackageDiagnosticKind::Symlink => out.push("symlink".to_owned()),
            PackageDiagnosticKind::NotRegularFile => out.push("not-regular-file".to_owned()),
            PackageDiagnosticKind::TooLarge { limit } => {
                out.push("file-too-large".to_owned());
                out.push(decimal_text(*limit as u64));
            },
            PackageDiagnosticKind::InvalidUtf8 => out.push("invalid-utf8".to_owned()),
            PackageDiagnosticKind::ChangedDuringRead => out.push("changed-during-read".to_owned()),
            PackageDiagnosticKind::ReadError { kind } => {
                out.push("read-error".to_owned());
                out.push((*kind).as_str().to_owned());
            },
            PackageDiagnosticKind::Unparseable => out.push("unparseable".to_owned()),
        }
        assert(texts(out@) =~= start + self.fields());
    }
}

/// Parse result retained as a compatibility input even when it is a failure.
#[derive(Debug, Clone, PartialEq, Eq)]
pub enum ManifestOutcome {
    Parsed(Package),
    Failed(PackageDiagnosticKind),
}

/// One relevant core-supported manifest, with no manifest source content exposed.
#[derive(Debug, Clone, PartialEq, Eq)]
pub struct ManifestInput {
    pub path: String,
    pub content_hash: Option<String>,
    pub parser: ManifestParserKind,
    pub outcome: ManifestOutcome,
}

/// A package-assignment diagnostic associated with a manifest path.
#[derive(Debug, Clone, PartialEq, Eq)]
pub struct PackageDiagnostic {
    pub path: String,
    pub kind: PackageDiagnosticKind,
}

/// The package selected for one admitted source. `None` is a first-class outcome.
#[derive(Debug, Clone, PartialEq, Eq, PartialOrd, Ord)]
pub struct SourcePackageAssignment {
    pub source_path: ProjectPath,
    pub manifest_path: Option<String>,
    pub package: Option<Package>,
}

/// Canonical discovery output. All vectors are sorted by their path keys.
#[derive(Debug, Clone, PartialEq, Eq)]
pub struct PackageAssignmentSet {
    pub manifests: Vec<ManifestInput>,
    pub assignments: Vec<SourcePackageAssignment>,
    pub diagnostics: Vec<PackageDiagnostic>,
}

/// A text that may be absent, as a field: the empty text stands for its absence.
pub open spec fn optional_field(s: Option<String>) -> Seq<char> {
    match s {
        Some(text) => text@,
        None => Seq::empty(),
    }
}

impl ManifestInput {
    /// The fields of the manifest's record.
    pub open spec fn fields(self) -> Seq<Seq<char>> {
        seq!["manifest"@, self.path@, optional_field(self.content_hash), self.parser.spelling()] + (
        match self.outcome {
            ManifestOutcome::Parsed(p) => seq!["parsed"@, p.manager@, p.name@, p.version@],
            ManifestOutcome::Failed(kind) => seq!["failed"@] + kind.fields(),
        })
    }

    /// The canonical record of the manifest.
    pub fn fingerprint_record(&self) -> (r: String)
        ensures
            r@ == record(self.fields()),
    {
        let mut fields: Vec<String> = Vec::new();
        fields.push("manifest".to_owned());
        fields.push(self.path.clone());
        match &self.content_hash {
            Some(hash) => fields.push(hash.clone()),
            None => fields.push(String::new()),
        }
        fields.push(self.parser.as_str().to_owned());
        let ghost head = texts(fields@);
        assert(head =~= seq![
            "manifest"@,
            self.path@,
            optional_field(self.content_hash),
            self.parser.spelling(),
        ]);
        match &self.outcome {
            ManifestOutcome::Parsed(package) => {
                fields.push("parsed".to_owned());
                fields.push(package.manager.clone());
                fields.push(package.name.clone());
                fields.push(package.version.clone());
            },
            ManifestOutcome::Failed(kind) => {
                fields.push("failed".to_owned());
                assert(texts(fields@) =~= head.push("failed"@));
                kind.push_fields(&mut fields);
            },
        }
        assert(texts(fields@) =~= self.fields());
        canonical_record(&fields)
    }
}

impl SourcePackageAssignment {
    /// The fields of the assignment's record.
    pub open spec fn fields(self) -> Seq<Seq<char>> {
        match (self.manifest_path, self.package) {
            (Some(path), Some(p)) => seq![
                "assignment"@,
                self.source_path@,
                "selected"@,
                path@,
                p.manager@,
                p.name@,
                p.version@,
            ],
            (None, None) => seq!["assignment"@, self.source_path@, "none"@],
            (Some(path), None) => seq![
                "assignment"@,
                self.source_path@,
                "incomplete"@,
                path@,
                Seq::empty(),
                Seq::empty(),
                Seq::empty(),
            ],
            (None, Some(p)) => seq![
                "assignment"@,
                self.source_path@,
                "incomplete"@,
                Seq::empty(),
                p.manager@,
                p.name@,
                p.version@,
            ],
        }
    }

    /// The canonical record of the assignment.
    pub fn fingerprint_record(&self) -> (r: String)
        ensures
            r@ == record(self.fields()),
    {
        let mut fields: Vec<String> = Vec::new();
        fields.push("assignment".to_owned());
        fields.push(self.source_path.to_text());
        match (&self.manifest_path, &self.package) {
            (Some(path), Some(package)) => {
                fields.push("selected".to_owned());
                fields.push(path.clone());
                fields.push(package.manager.clone());
                fields.push(package.name.clone());
                fields.push(package.version.clone());
            },
            (None, None) => {
                fields.push("none".to_owned());
            },
            (Some(path), None) => {
                fields.push("incomplete".to_owned());
                fields.push(path.clone());
                fields.push(String::new());
                fields.push(String::new());
                fields.push(String::new());
            },
            (None, Some(package)) => {
                fields.push("incomplete".to_owned());
                fields.push(String::new());
                fields.push(package.manager.clone());
                fields.push(package.name.clone());
                fields.push(package.version.clone());
            },
        }
        assert(texts(fields@) =~= self.fields());
        canonical_record(&fields)
    }

    /// Canonical identity for this source's selected package, including the
    /// explicit `none` outcome. It is suitable for refresh reuse checks.
    pub fn canonical_identity(&self) -> (r: String)
        ensures
            r@ == record(self.fields()),
    {
        self.fingerprint_record()
    }

    /// Validates that an opaque persisted assignment is the exact canonical
    /// record for `source_path`, including an explicit `none` selection.
    pub fn is_canonical_identity_for_path(value: &str, source_path: &str) -> (r: bool)
        ensures
            r == is_canonical_identity(value@, source_path@),
    {
        let ghost b = encode_utf8(value@);
        let size = value.as_bytes().len();
        let fields = match parse_canonical_record(value) {
            Some(fields) => fields,
            None => {
                proof {
                    if is_canonical_identity(value@, source_path@) {
                        let fs = choose|fs: Seq<Seq<char>>| #[trigger]
                            record(fs) == value@ && identity_fields_ok(fs, source_path@);
                        lemma_fields_fit(fs);
                        record_parses_back(fs);
                    }
                }
                return false;
            },
        };
        // Parsing alone is insufficient: decimal lengths with leading zeroes
        // describe the same fields but are not the one canonical encoding.
        let again = canonical_record(&fields);
        let canonical = same_text(again.as_str(), value);
        let ok = canonical && identity_shape(&fields, source_path);
        proof {
            if ok {
                assert(record(texts(fields@)) == value@);
            }
            if is_canonical_identity(value@, source_path@) {
                let fs = choose|fs: Seq<Seq<char>>| #[trigger]
                    record(fs) == value@ && identity_fields_ok(fs, source_path@);
                lemma_fields_fit(fs);
                record_parses_back(fs);
                let got = texts(fields@);
                assert(encoded(fs) == encoded(got));
                assert(encoded(fs).len() == fs.len());
                assert forall|i: int| 0 <= i < fs.len() implies fs[i] == got[i] by {
                    assert(encoded(fs)[i] == encode_utf8(fs[i]));
                    assert(encoded(got)[i] == encode_utf8(got[i]));
                    bytes_determine_text(fs[i], got[i]);
                }
                assert(fs =~= got);
            }
        }
        ok
    }
}

/// The fields are those of an assignment of `path`: none, or a selected manifest
/// whose path is project-relative.
pub open spec fn identity_fields_ok(fields: Seq<Seq<char>>, path: Seq<char>) -> bool {
    ||| (fields.len() == 3 && fields[0] == "assignment"@ && fields[1] == path && fields[2]
        == "none"@)
    ||| (fields.len() == 7 && fields[0] == "assignment"@ && fields[1] == path && fields[2]
        == "selected"@ && rejection(encode_utf8(fields[3])) is None)
}

/// The text is the canonical record of an assignment of `path`.
pub open spec fn is_canonical_identity(value: Seq<char>, path: Seq<char>) -> bool {
    exists|fields: Seq<Seq<char>>| #[trigger]
        record(fields) == value && identity_fields_ok(fields, path)
}

proof fn lemma_field_in_record(fields: Seq<Seq<char>>, i: int)
    requires
        0 <= i < fields.len(),
    ensures
        encode_utf8(fields[i]).len() <= encode_utf8(record(fields)).len(),
    decreases fields.len(),
{
    let f = fields[0];
    let more = fields.drop_first();
    let head = decimal(encode_utf8(f).len()) + ":"@;
    encode_concat(head + f, record(more));
    encode_concat(head, f);
    if i > 0 {
        lemma_field_in_record(more, i - 1);
        assert(more[i - 1] == fields[i]);
    }
}

pub(crate) proof fn lemma_fields_fit(fields: Seq<Seq<char>>)
    requires
        encode_utf8(record(fields)).len() <= usize::MAX,
    ensures
        fields_fit(fields),
{
    assert forall|i: int| 0 <= i < fields.len() implies encode_utf8(#[trigger] fields[i]).len()
        <= usize::MAX by {
        lemma_field_in_record(fields, i);
    }
}

fn identity_shape(fields: &Vec<String>, path: &str) -> (r: bool)
    ensures
        r == identity_fields_ok(texts(fields@), path@),
{
    let ghost t = texts(fields@);
    if fields.len() == 3 {
        return same_text(fields[0].as_str(), "assignment") && same_text(fields[1].as_str(), path)
            && same_text(fields[2].as_str(), "none");
    }
    if fields.len() == 7 {
        if same_text(fields[0].as_str(), "assignment") && same_text(fields[1].as_str(), path)
            && same_text(fields[2].as_str(), "selected") {
            let manifest = fields[3].as_str();
            return ProjectPath::new(manifest.as_bytes()).is_ok();
        }
    }
    false
}

/// The assignment is one that discovery emits: a manifest with its package, or
/// neither.
pub open spec fn assignment_ok(a: SourcePackageAssignment) -> bool {
    match (a.manifest_path, a.package) {
        (Some(path), Some(_)) => rejection(encode_utf8(path@)) is None,
        (None, None) => true,
        _ => false,
    }
}

/// The identity of an assignment that discovery emits is accepted for its source.
pub proof fn written_identities_are_accepted(a: SourcePackageAssignment)
    requires
        assignment_ok(a),
    ensures
        is_canonical_identity(record(a.fields()), a.source_path@),
{
    assert(identity_fields_ok(a.fields(), a.source_path@));
}

/// Assignments of different sources, manifests or packages have different
/// identities.
pub proof fn identities_tell_assignments_apart(
    a: SourcePackageAssignment,
    b: SourcePackageAssignment,
)
    requires
        assignment_ok(a),
        assignment_ok(b),
        fields_fit(a.fields()),
        fields_fit(b.fields()),
        record(a.fields()) == record(b.fields()),
    ensures
        a.source_path@ == b.source_path@,
        a.manifest_path is Some <==> b.manifest_path is Some,
        a.manifest_path is Some ==> a.manifest_path->0@ == b.manifest_path->0@,
        a.package is Some ==> b.package is Some && a.package->0@ == b.package->0@,
{
    records_do_not_collide(a.fields(), b.fields());
    let x = a.fields();
    let y = b.fields();
    assert(x[1] == y[1]);
    assert(x.len() == y.len());
    if x.len() == 7 {
        assert(x[3] == y[3]);
        assert(x[4] == y[4]);
        assert(x[5] == y[5]);
        assert(x[6] == y[6]);
    }
}

impl PackageAssignmentSet {
    /// Canonical, content-free records of the manifests, in their order.
    pub fn manifest_fingerprint_records(&self) -> (r: Vec<String>)
        ensures
            r@.len() == self.manifests@.len(),
            forall|i: int|
                0 <= i < r@.len() ==> (#[trigger] r@[i])@ == record(self.manifests@[i].fields()),
    {
        let mut records: Vec<String> = Vec::new();
        let mut i: usize = 0;
        while i < self.manifests.len()
            invariant
                i <= self.manifests.len(),
                records@.len() == i,
                forall|j: int|
                    0 <= j < i ==> (#[trigger] records@[j])@ == record(
                        self.manifests@[j].fields(),
                    ),
            decreases self.manifests.len() - i,
        {
            records.push(self.manifests[i].fingerprint_record());
            i += 1;
        }
        records
    }

    /// Canonical per-source selection records, in their order.
    pub fn assignment_fingerprint_records(&self) -> (r: Vec<String>)
        ensures
            r@.len() == self.assignments@.len(),
            forall|i: int|
                0 <= i < r@.len() ==> (#[trigger] r@[i])@ == record(
                    self.assignments@[i].fields(),
                ),
    {
        let mut records: Vec<String> = Vec::new();
        let mut i: usize = 0;
        while i < self.assignments.len()
            invariant
                i <= self.assignments.len(),
                records@.len() == i,
                forall|j: int|
                    0 <= j < i ==> (#[trigger] records@[j])@ == record(
                        self.assignments@[j].fields(),
                    ),
            decreases self.assignments.len() - i,
        {
            records.push(self.assignments[i].fingerprint_record());
            i += 1;
        }
        records
    }
}

} // verus!
