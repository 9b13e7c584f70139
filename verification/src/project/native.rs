//! Paths as their platform reads them.

use vstd::prelude::*;
use vstd::string::*;
use vstd::utf8::*;
use crate::cache::fingerprint::append_bytes;
use crate::error::CliError;
use crate::project::path::{
    any_dot_name, copied_bytes, has_dot_name, is_dot_name, joined, names, rejected, rejection,
    segments, segments_of, text_from_utf8, ProjectPath, SLASH,
};
use crate::text::same_bytes;

verus! {

/// The byte of a backslash.
pub const BACKSLASH: u8 = 92;

/// The platforms that spell and hash native paths in their own way.
#[derive(Debug, Clone, Copy, PartialEq, Eq, Structural)]
pub enum Platform {
    Unix,
    Windows,
    Other,
}

/// A part of a path as its platform reads it.
#[derive(Debug, PartialEq, Eq)]
pub enum PathComponent {
    /// A volume or a share.
    Prefix(Vec<u8>),
    RootDir,
    CurDir,
    ParentDir,
    Normal(Vec<u8>),
}

/// What a part of a path is.
pub enum ComponentView {
    Prefix(Seq<u8>),
    RootDir,
    CurDir,
    ParentDir,
    Normal(Seq<u8>),
}

impl PathComponent {
    /// What the part is.
    pub open spec fn view(self) -> ComponentView {
        match self {
            PathComponent::Prefix(bytes) => ComponentView::Prefix(bytes@),
            PathComponent::RootDir => ComponentView::RootDir,
            PathComponent::CurDir => ComponentView::CurDir,
            PathComponent::ParentDir => ComponentView::ParentDir,
            PathComponent::Normal(bytes) => ComponentView::Normal(bytes@),
        }
    }
}

/// A path as its platform reads it.
#[derive(Debug, PartialEq, Eq)]
pub struct NativePath {
    /// The path as it is spelled.
    pub spelled: Vec<u8>,
    /// The path does not depend on a working directory.
    pub absolute: bool,
    pub components: Vec<PathComponent>,
}

/// What the parts of a path are.
pub open spec fn component_views(components: Seq<PathComponent>) -> Seq<ComponentView> {
    components.map_values(|c: PathComponent| c@)
}

/// The spelling with slashes in place of backslashes.
pub open spec fn slashed(b: Seq<u8>) -> Seq<u8> {
    b.map_values(
        |c: u8|
            if c == BACKSLASH {
                SLASH
            } else {
                c
            },
    )
}

/// The path has a part that is `.` or `..`: as it is spelled where the platform is known,
/// and otherwise as it is read.
pub open spec fn names_a_dot(
    platform: Platform,
    spelled: Seq<u8>,
    components: Seq<ComponentView>,
) -> bool {
    match platform {
        Platform::Unix => has_dot_name(spelled),
        Platform::Windows => has_dot_name(slashed(spelled)),
        Platform::Other => exists|i: int|
            0 <= i < components.len() && ((#[trigger] components[i]) is CurDir
                || components[i] is ParentDir),
    }
}

/// Why a part cannot stand in a project-relative path, if it cannot.
pub open spec fn component_fault(c: ComponentView) -> Option<Seq<char>> {
    match c {
        ComponentView::Normal(name) => if valid_utf8(name) {
            None
        } else {
            Some("path must be UTF-8"@)
        },
        _ => Some("path may not contain root, prefix, '.' or '..' components"@),
    }
}

/// The first fault of the parts.
pub open spec fn first_component_fault(components: Seq<ComponentView>) -> Option<Seq<char>>
    decreases components.len(),
{
    if components.len() == 0 {
        None
    } else {
        match first_component_fault(components.drop_last()) {
            Some(why) => Some(why),
            None => component_fault(components.last()),
        }
    }
}

/// The names of the parts, with one slash between neighbours.
pub open spec fn slash_spelling(components: Seq<ComponentView>) -> Seq<u8> {
    joined(components.map_values(|c: ComponentView| c->Normal_0))
}

/// Why a path is not accepted as project-relative on its platform, if it is not.
pub open spec fn native_rejection(
    platform: Platform,
    spelled: Seq<u8>,
    absolute: bool,
    components: Seq<ComponentView>,
) -> Option<Seq<char>> {
    if spelled.len() == 0 || absolute {
        Some("path must be nonempty and relative"@)
    } else if names_a_dot(platform, spelled, components) {
        Some("path may not contain '.' or '..' components"@)
    } else if first_component_fault(components) is Some {
        first_component_fault(components)
    } else if components.len() == 0 {
        Some("path must be nonempty"@)
    } else {
        rejection(slash_spelling(components))
    }
}

/// What reading a path of a platform as a project-relative path gives.
pub open spec fn is_native_reading(
    platform: Platform,
    spelled: Seq<u8>,
    absolute: bool,
    components: Seq<ComponentView>,
    r: Result<ProjectPath, CliError>,
) -> bool {
    let rejected = native_rejection(platform, spelled, absolute, components);
    match r {
        Ok(p) => rejected is None && p.bytes() == joined(names(slash_spelling(components))),
        Err(e) => rejected is Some && e.is_relative_path(spelled, rejected->0),
    }
}

fn slashed_bytes(b: &[u8]) -> (r: Vec<u8>)
    ensures
        r@ == slashed(b@),
{
    let mut r: Vec<u8> = Vec::new();
    let mut i: usize = 0;
    while i < b.len()
        invariant
            i <= b.len(),
            r@ == slashed(b@).take(i as int),
        decreases b.len() - i,
    {
        r.push(
            if b[i] == BACKSLASH {
                SLASH
            } else {
                b[i]
            },
        );
        i += 1;
        assert(r@ =~= slashed(b@).take(i as int));
    }
    assert(r@ =~= slashed(b@));
    r
}

fn spells_a_dot(b: &[u8]) -> (r: bool)
    ensures
        r == has_dot_name(b@),
{
    let parts = segments_of(b);
    let r = any_dot_name(&parts);
    proof {
        if r {
            let i = choose|i: int| 0 <= i < parts@.len() && is_dot_name((#[trigger] parts@[i])@);
            assert(is_dot_name(segments(b@)[i]));
        } else if has_dot_name(b@) {
            let i = choose|i: int|
                0 <= i < segments(b@).len() && is_dot_name(#[trigger] segments(b@)[i]);
            assert(is_dot_name(parts@[i]@));
        }
    }
    r
}

/// Reads the parts of a path from one of them on.
fn read_components(
    platform: Platform,
    spelled: &[u8],
    absolute: bool,
    components: &Vec<PathComponent>,
    from: usize,
) -> (r: Result<ProjectPath, CliError>)
    requires
        from <= components@.len(),
    ensures
        is_native_reading(
            platform,
            spelled@,
            absolute,
            component_views(components@).skip(from as int),
            r,
        ),
{
    let ghost views = component_views(components@).skip(from as int);
    if spelled.len() == 0 || absolute {
        return rejected(spelled, "path must be nonempty and relative");
    }
    let dotted: bool = match platform {
        Platform::Unix => spells_a_dot(spelled),
        Platform::Windows => {
            let slashes = slashed_bytes(spelled);
            spells_a_dot(slashes.as_slice())
        },
        Platform::Other => {
            let mut found = false;
            let mut i: usize = from;
            while i < components.len()
                invariant
                    from <= i <= components.len(),
                    views == component_views(components@).skip(from as int),
                    found == exists|j: int|
                        0 <= j < i - from && ((#[trigger] views[j]) is CurDir
                            || views[j] is ParentDir),
                decreases components.len() - i,
            {
                assert(views[i - from] == components@[i as int]@);
                match &components[i] {
                    PathComponent::CurDir | PathComponent::ParentDir => {
                        found = true;
                    },
                    _ => {},
                }
                i += 1;
            }
            found
        },
    };
    if dotted {
        return rejected(spelled, "path may not contain '.' or '..' components");
    }
    let ghost all = views.map_values(|c: ComponentView| c->Normal_0);
    let mut text: Vec<u8> = Vec::new();
    let mut i: usize = from;
    while i < components.len()
        invariant
            from <= i <= components.len(),
            spelled@.len() > 0,
            !absolute,
            views == component_views(components@).skip(from as int),
            all == views.map_values(|c: ComponentView| c->Normal_0),
            !names_a_dot(platform, spelled@, views),
            first_component_fault(views.take(i - from)) is None,
            text@ == joined(all.take(i - from)),
        decreases components.len() - i,
    {
        let ghost k = i - from;
        assert(views[k] == components@[i as int]@);
        assert(views.take(k + 1).drop_last() =~= views.take(k));
        let whole = match &components[i] {
            PathComponent::Normal(name) => match text_from_utf8(copied_bytes(name.as_slice())) {
                Some(_) => {
                    assert(all.take(k + 1).drop_last() =~= all.take(k));
                    if i > from {
                        text.push(SLASH);
                    }
                    append_bytes(&mut text, name.as_slice());
                    assert(text@ =~= joined(all.take(k + 1)));
                    None
                },
                None => Some("path must be UTF-8"),
            },
            _ => Some("path may not contain root, prefix, '.' or '..' components"),
        };
        if let Some(why) = whole {
            proof {
                lemma_fault_stays(views, k + 1);
            }
            return rejected(spelled, why);
        }
        i += 1;
    }
    assert(views.take(views.len() as int) =~= views);
    assert(all.take(all.len() as int) =~= all);
    if from == components.len() {
        return rejected(spelled, "path must be nonempty");
    }
    match ProjectPath::new(text.as_slice()) {
        Ok(path) => Ok(path),
        Err(CliError::ProjectRelativePath { path: _, reason }) => rejected(
            spelled,
            reason.as_str(),
        ),
        Err(e) => Err(e),
    }
}

proof fn lemma_fault_stays(components: Seq<ComponentView>, n: int)
    requires
        0 <= n <= components.len(),
        first_component_fault(components.take(n)) is Some,
    ensures
        first_component_fault(components) == first_component_fault(components.take(n)),
    decreases components.len() - n,
{
    if n < components.len() {
        assert(components.take(n + 1).drop_last() =~= components.take(n));
        lemma_fault_stays(components, n + 1);
    } else {
        assert(components.take(n) =~= components);
    }
}

fn same_component(a: &PathComponent, b: &PathComponent) -> (r: bool)
    ensures
        r == (a@ == b@),
{
    match (a, b) {
        (PathComponent::Prefix(x), PathComponent::Prefix(y)) => same_bytes(
            x.as_slice(),
            y.as_slice(),
        ),
        (PathComponent::Normal(x), PathComponent::Normal(y)) => same_bytes(
            x.as_slice(),
            y.as_slice(),
        ),
        (PathComponent::RootDir, PathComponent::RootDir) => true,
        (PathComponent::CurDir, PathComponent::CurDir) => true,
        (PathComponent::ParentDir, PathComponent::ParentDir) => true,
        _ => false,
    }
}

/// The parts of `root` are the first parts of `source`.
pub open spec fn is_native_within(root: Seq<ComponentView>, source: Seq<ComponentView>) -> bool {
    root.len() <= source.len() && source.take(root.len() as int) == root
}

fn begins_with_components(root: &Vec<PathComponent>, source: &Vec<PathComponent>) -> (r: bool)
    ensures
        r == is_native_within(component_views(root@), component_views(source@)),
{
    let ghost outer = component_views(root@);
    let ghost inner = component_views(source@);
    if root.len() > source.len() {
        return false;
    }
    let mut i: usize = 0;
    while i < root.len()
        invariant
            i <= root.len() <= source.len(),
            outer == component_views(root@),
            inner == component_views(source@),
            inner.take(i as int) == outer.take(i as int),
        decreases root.len() - i,
    {
        assert(outer[i as int] == root@[i as int]@ && inner[i as int] == source@[i as int]@);
        if !same_component(&root[i], &source[i]) {
            assert(inner.take(outer.len() as int)[i as int] != outer[i as int]);
            return false;
        }
        i += 1;
        assert(inner.take(i as int) =~= outer.take(i as int));
    }
    assert(outer.take(outer.len() as int) =~= outer);
    true
}

impl ProjectPath {
    /// Validates and normalizes a project-relative path as its platform reads it.
    pub fn from_native(platform: Platform, path: &NativePath) -> (r: Result<Self, CliError>)
        ensures
            is_native_reading(
                platform,
                path.spelled@,
                path.absolute,
                component_views(path.components@),
                r,
            ),
    {
        assert(component_views(path.components@).skip(0) =~= component_views(path.components@));
        read_components(platform, path.spelled.as_slice(), path.absolute, &path.components, 0)
    }

    /// Converts canonical, contained source and project-root paths of a platform to a
    /// normalized path; `rest` is how the source spells what follows the root.
    pub fn from_canonical_native_source(
        platform: Platform,
        root: &NativePath,
        source: &NativePath,
        rest: &[u8],
    ) -> (r: Result<Self, CliError>)
        ensures
            ({
                let outer = component_views(root.components@);
                let inner = component_views(source.components@);
                if !root.absolute || !source.absolute {
                    r matches Err(e) && e.is_relative_path(
                        source.spelled@,
                        "root and source must be canonical absolute paths"@,
                    )
                } else if !is_native_within(outer, inner) {
                    r matches Err(CliError::ProjectPathOutsideRoot { root: told, path }) && told@
                        == root.spelled@ && path@ == source.spelled@
                } else {
                    is_native_reading(platform, rest@, false, inner.skip(outer.len() as int), r)
                }
            }),
    {
        if !root.absolute || !source.absolute {
            return rejected(
                source.spelled.as_slice(),
                "root and source must be canonical absolute paths",
            );
        }
        if !begins_with_components(&root.components, &source.components) {
            return Err(
                CliError::ProjectPathOutsideRoot {
                    root: copied_bytes(root.spelled.as_slice()),
                    path: copied_bytes(source.spelled.as_slice()),
                },
            );
        }
        read_components(platform, rest, false, &source.components, root.components.len())
    }
}

} // verus!
