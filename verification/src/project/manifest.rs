//! Recognition of build and language manifests by their names.

use vstd::prelude::*;
use vstd::string::*;
use crate::text::{begins_with, chars_of, same_text};

verus! {

/// The texts of a list of names.
pub open spec fn name_views(v: Seq<&'static str>) -> Seq<Seq<char>> {
    v.map_values(|s: &'static str| s@)
}

/// The names that mark a project.
pub open spec fn exact_markers_spec() -> Seq<Seq<char>> {
    seq![
        "Cargo.toml"@,
        "package.json"@,
        "pyproject.toml"@,
        "setup.py"@,
        "setup.cfg"@,
        "Pipfile"@,
        "poetry.lock"@,
        "go.mod"@,
        "pom.xml"@,
        "build.gradle"@,
        "build.gradle.kts"@,
        "settings.gradle"@,
        "settings.gradle.kts"@,
        "CMakeLists.txt"@,
        "Makefile"@,
        "meson.build"@,
        "configure.ac"@,
        "configure.in"@,
        "Gemfile"@,
        "Rakefile"@,
        "composer.json"@,
        "Package.swift"@,
        "pubspec.yaml"@,
        "pubspec.yml"@,
        "foundry.toml"@,
        "truffle-config.js"@,
        "truffle.js"@,
        "selene.toml"@,
        "terraform.tf"@,
        "main.tf"@,
    ]
}

/// The names that mark a project.
pub fn exact_markers() -> (r: Vec<&'static str>)
    ensures
        name_views(r@) == exact_markers_spec(),
{
    let mut r: Vec<&'static str> = Vec::new();
    r.push("Cargo.toml");
    r.push("package.json");
    r.push("pyproject.toml");
    r.push("setup.py");
    r.push("setup.cfg");
    r.push("Pipfile");
    r.push("poetry.lock");
    r.push("go.mod");
    r.push("pom.xml");
    r.push("build.gradle");
    r.push("build.gradle.kts");
    r.push("settings.gradle");
    r.push("settings.gradle.kts");
    r.push("CMakeLists.txt");
    r.push("Makefile");
    r.push("meson.build");
    r.push("configure.ac");
    r.push("configure.in");
    r.push("Gemfile");
    r.push("Rakefile");
    r.push("composer.json");
    r.push("Package.swift");
    r.push("pubspec.yaml");
    r.push("pubspec.yml");
    r.push("foundry.toml");
    r.push("truffle-config.js");
    r.push("truffle.js");
    r.push("selene.toml");
    r.push("terraform.tf");
    r.push("main.tf");
    assert(name_views(r@) =~= exact_markers_spec());
    r
}

/// The patterns of names that mark a project, with one `*` each.
pub open spec fn glob_markers_spec() -> Seq<Seq<char>> {
    seq![
        "requirements*.txt"@,
        "*.sln"@,
        "*.csproj"@,
        "*.fsproj"@,
        "*.vbproj"@,
        "hardhat.config.*"@,
        "*.rockspec"@,
        "*.lpi"@,
        "*.lpr"@,
        "*.dproj"@,
        "*.lpk"@,
    ]
}

/// The patterns of names that mark a project, with one `*` each.
pub fn glob_markers() -> (r: Vec<&'static str>)
    ensures
        name_views(r@) == glob_markers_spec(),
{
    let mut r: Vec<&'static str> = Vec::new();
    r.push("requirements*.txt");
    r.push("*.sln");
    r.push("*.csproj");
    r.push("*.fsproj");
    r.push("*.vbproj");
    r.push("hardhat.config.*");
    r.push("*.rockspec");
    r.push("*.lpi");
    r.push("*.lpr");
    r.push("*.dproj");
    r.push("*.lpk");
    assert(name_views(r@) =~= glob_markers_spec());
    r
}

/// The text ends with the other one.
pub open spec fn ends_with(s: Seq<char>, suffix: Seq<char>) -> bool {
    suffix.len() <= s.len() && s.skip(s.len() - suffix.len()) == suffix
}

/// The pattern has its first `*` at the place.
pub open spec fn star_at(pattern: Seq<char>, at: int) -> bool {
    0 <= at < pattern.len() && pattern[at] == '*' && forall|i: int|
        0 <= i < at ==> pattern[i] != '*'
}

/// The name fits the pattern: what stands before the first `*` begins it, what stands
/// after ends it, and the two do not overlap. A pattern without `*` is the name.
pub open spec fn name_matches(pattern: Seq<char>, name: Seq<char>) -> bool {
    if pattern.contains('*') {
        exists|at: int| #[trigger]
            star_at(pattern, at) && begins_with(name, pattern.take(at)) && ends_with(
                name,
                pattern.skip(at + 1),
            ) && name.len() >= pattern.len() - 1
    } else {
        pattern == name
    }
}

/// Tells whether the name fits the pattern.
pub fn matches(pattern: &str, name: &str) -> (r: bool)
    ensures
        r == name_matches(pattern@, name@),
{
    let p = chars_of(pattern);
    let n = chars_of(name);
    let mut at: usize = 0;
    while at < p.len() && p[at] != '*'
        invariant
            at <= p.len(),
            p@ == pattern@,
            forall|i: int| 0 <= i < at ==> p@[i] != '*',
        decreases p.len() - at,
    {
        at += 1;
    }
    if at == p.len() {
        assert(!pattern@.contains('*'));
        return same_text(pattern, name);
    }
    assert(pattern@[at as int] == '*');
    assert(star_at(pattern@, at as int));
    assert forall|other: int| #[trigger] star_at(pattern@, other) implies other == at by {
        if other < at {
            assert(p@[other] != '*');
        }
    }
    if n.len() < p.len() - 1 {
        return false;
    }
    let ghost prefix = pattern@.take(at as int);
    let ghost suffix = pattern@.skip(at + 1);
    let mut i: usize = 0;
    while i < at
        invariant
            i <= at < p.len(),
            p@ == pattern@,
            n@ == name@,
            n.len() >= p.len() - 1,
            prefix == pattern@.take(at as int),
            pattern@.contains('*'),
            forall|other: int| #[trigger] star_at(pattern@, other) ==> other == at,
            forall|j: int| 0 <= j < i ==> n@[j] == p@[j],
        decreases at - i,
    {
        if n[i] != p[i] {
            assert(name@.take(prefix.len() as int)[i as int] != prefix[i as int]);
            return false;
        }
        i += 1;
    }
    assert(name@.take(prefix.len() as int) =~= prefix);
    let length: usize = p.len() - at - 1;
    let start: usize = n.len() - length;
    let mut k: usize = 0;
    while k < length
        invariant
            k <= length,
            at < p.len(),
            length == p.len() - at - 1,
            length <= n.len(),
            start == n.len() - length,
            p@ == pattern@,
            n@ == name@,
            suffix == pattern@.skip(at + 1),
            pattern@.contains('*'),
            forall|other: int| #[trigger] star_at(pattern@, other) ==> other == at,
            forall|j: int| 0 <= j < k ==> name@.skip(start as int)[j] == #[trigger] suffix[j],
        decreases length - k,
    {
        assert(suffix[k as int] == p@[at + 1 + k]);
        assert(name@.skip(start as int)[k as int] == n@[start + k]);
        if n[start + k] != p[at + 1 + k] {
            assert(name@.skip(name@.len() - suffix.len())[k as int] != suffix[k as int]);
            return false;
        }
        k += 1;
    }
    assert(name@.skip(name@.len() - suffix.len()) =~= suffix);
    true
}

/// An entry of a directory. The name is missing where it is no text.
#[derive(Debug, Clone, PartialEq, Eq)]
pub struct DirectoryEntry {
    pub name: Option<String>,
    pub is_file: bool,
}

/// The name is that of a manifest.
pub open spec fn is_marker(name: Seq<char>) -> bool {
    ||| exact_markers_spec().contains(name)
    ||| exists|i: int|
        0 <= i < glob_markers_spec().len() && name_matches(
            #[trigger] glob_markers_spec()[i],
            name,
        )
}

/// The entry is a manifest: a regular file with such a name.
pub open spec fn marks(entry: DirectoryEntry) -> bool {
    entry.is_file && (entry.name matches Some(name) && is_marker(name@))
}

fn names_marker(name: &str) -> (r: bool)
    ensures
        r == is_marker(name@),
{
    let exact = exact_markers();
    let ghost all = exact_markers_spec();
    let mut i: usize = 0;
    while i < exact.len()
        invariant
            i <= exact.len(),
            all == exact_markers_spec(),
            all == name_views(exact@),
            forall|j: int| 0 <= j < i ==> all[j] != name@,
        decreases exact.len() - i,
    {
        assert(all[i as int] == exact@[i as int]@);
        if same_text(exact[i], name) {
            assert(all.contains(name@));
            return true;
        }
        i += 1;
    }
    assert(all.len() == exact@.len());
    assert(!all.contains(name@));
    let patterns = glob_markers();
    let ghost globs = glob_markers_spec();
    let mut k: usize = 0;
    while k < patterns.len()
        invariant
            k <= patterns.len(),
            globs == glob_markers_spec(),
            globs == name_views(patterns@),
            !exact_markers_spec().contains(name@),
            forall|j: int| 0 <= j < k ==> !name_matches(#[trigger] globs[j], name@),
        decreases patterns.len() - k,
    {
        assert(globs[k as int] == patterns@[k as int]@);
        if matches(patterns[k], name) {
            assert(name_matches(globs[k as int], name@));
            return true;
        }
        k += 1;
    }
    assert(globs.len() == patterns@.len());
    false
}

/// Tells whether a directory with these entries contains a recognized manifest. That
/// one is there is enough: it is never read.
pub fn has_marker(entries: &Vec<DirectoryEntry>) -> (r: bool)
    ensures
        r == exists|i: int| 0 <= i < entries@.len() && marks(#[trigger] entries@[i]),
{
    let mut i: usize = 0;
    while i < entries.len()
        invariant
            i <= entries.len(),
            forall|j: int| 0 <= j < i ==> !marks(#[trigger] entries@[j]),
        decreases entries.len() - i,
    {
        let entry = &entries[i];
        if entry.is_file {
            match &entry.name {
                Some(name) => {
                    if names_marker(name.as_str()) {
                        assert(marks(entries@[i as int]));
                        return true;
                    }
                },
                None => {},
            }
        }
        assert(!marks(entries@[i as int]));
        i += 1;
    }
    false
}

} // verus!
