//! Cache paths isolated from project trees.

use vstd::prelude::*;
use vstd::string::*;
use vstd::utf8::*;
use crate::cache::fingerprint::{append_bytes, blake3_digest, blake3_of, part, write_part};
use crate::project::native::Platform;
use crate::project::path::{copied_bytes, is_inside, lies_in, names_stay_inside, SLASH};

verus! {

/// How the bytes of a platform's paths are to be read.
pub open spec fn encoding_tag(platform: Platform) -> Seq<char> {
    match platform {
        Platform::Unix => "unix\0"@,
        Platform::Windows => "windows-utf16le\0"@,
        Platform::Other => "rust-osstr-encoded-bytes\0"@,
    }
}

/// What the key of a project hashes: the native bytes of its canonical root.
pub open spec fn project_key_preimage(platform: Platform, root: Seq<u8>) -> Seq<u8> {
    encode_utf8("code2graph.cache.project-key.v1\0"@) + (encode_utf8(encoding_tag(platform))
        + part(root))
}

/// Different roots are hashed as different byte strings.
pub proof fn roots_are_hashed_apart(platform: Platform, a: Seq<u8>, b: Seq<u8>)
    requires
        project_key_preimage(platform, a) == project_key_preimage(platform, b),
        a.len() <= u64::MAX,
        b.len() <= u64::MAX,
    ensures
        a == b,
{
    vstd::bytes::lemma_auto_spec_u64_to_from_le_bytes();
    let n = (encode_utf8("code2graph.cache.project-key.v1\0"@).len() + encode_utf8(
        encoding_tag(platform),
    ).len() + 8) as int;
    assert(a =~= project_key_preimage(platform, a).skip(n));
    assert(b =~= project_key_preimage(platform, b).skip(n));
}

/// Stable, opaque identity for a canonical project root.
#[derive(Debug, Clone, Copy, PartialEq, Eq, Hash)]
pub struct ProjectKey {
    bytes: [u8; 32],
}

/// The character of one hexadecimal digit, in lower case.
pub open spec fn hex_digit(d: u8) -> char {
    if d < 10 {
        (48 + d) as char
    } else {
        (87 + d) as char
    }
}

/// The hexadecimal notation of bytes.
pub open spec fn hex(b: Seq<u8>) -> Seq<char>
    decreases b.len(),
{
    if b.len() == 0 {
        Seq::empty()
    } else {
        hex(b.drop_last()).push(hex_digit(b.last() / 16)).push(hex_digit(b.last() % 16))
    }
}

fn hex_char(d: u8) -> (c: char)
    requires
        d < 16,
    ensures
        c == hex_digit(d),
{
    match d {
        0 => '0',
        1 => '1',
        2 => '2',
        3 => '3',
        4 => '4',
        5 => '5',
        6 => '6',
        7 => '7',
        8 => '8',
        9 => '9',
        10 => 'a',
        11 => 'b',
        12 => 'c',
        13 => 'd',
        14 => 'e',
        _ => 'f',
    }
}

/// The hexadecimal notation of bytes.
pub fn hex_text(b: &[u8]) -> (r: String)
    ensures
        r@ == hex(b@),
{
    let mut out = String::new();
    let mut i: usize = 0;
    assert(b@.take(0) =~= Seq::<u8>::empty());
    while i < b.len()
        invariant
            i <= b.len(),
            out@ == hex(b@.take(i as int)),
        decreases b.len() - i,
    {
        let c = b[i];
        out.push(hex_char(c / 16));
        out.push(hex_char(c % 16));
        assert(b@.take(i as int + 1).drop_last() =~= b@.take(i as int));
        i += 1;
    }
    assert(b@.take(b@.len() as int) =~= b@);
    out
}

impl ProjectKey {
    /// The bytes of the key.
    pub closed spec fn view(self) -> Seq<u8> {
        self.bytes@
    }

    /// The opaque bytes persisted with the cache partition identity.
    pub fn as_bytes(self) -> (r: [u8; 32])
        ensures
            r@ == self@,
    {
        self.bytes
    }

    /// Hash a canonical native path without converting it to lossy text.
    pub fn from_canonical_root(root: &[u8]) -> (r: Self)
        ensures
            r@ == blake3_of(project_key_preimage(Platform::Unix, root@)),
    {
        ProjectKey::from_native_root(Platform::Unix, root)
    }

    /// Hash a canonical path of a platform, given by its native bytes: on Windows the code
    /// units, the low byte of each first.
    pub fn from_native_root(platform: Platform, root: &[u8]) -> (r: Self)
        ensures
            r@ == blake3_of(project_key_preimage(platform, root@)),
    {
        let tag = match platform {
            Platform::Unix => "unix\0",
            Platform::Windows => "windows-utf16le\0",
            Platform::Other => "rust-osstr-encoded-bytes\0",
        };
        let mut buffer: Vec<u8> = Vec::new();
        append_bytes(&mut buffer, "code2graph.cache.project-key.v1\0".as_bytes());
        append_bytes(&mut buffer, tag.as_bytes());
        write_part(&mut buffer, root);
        assert(buffer@ =~= project_key_preimage(platform, root@));
        ProjectKey { bytes: blake3_digest(buffer.as_slice()) }
    }

    /// The key in lower-case hexadecimal notation.
    pub fn to_text(&self) -> (r: String)
        ensures
            r@ == hex(self@),
    {
        hex_text(self.bytes.as_slice())
    }
}

/// A key has the length of a digest.
pub proof fn keys_have_their_length(key: ProjectKey)
    ensures
        key@.len() == 32,
{
}

/// The path of `name` in the directory `base`.
pub open spec fn path_join(base: Seq<u8>, name: Seq<u8>) -> Seq<u8> {
    if base.len() == 0 || base.last() == SLASH {
        base + name
    } else {
        base.push(SLASH) + name
    }
}

/// The path of a relative name in a directory.
pub(crate) fn join_path(base: &[u8], name: &[u8]) -> (r: Vec<u8>)
    ensures
        r@ == path_join(base@, name@),
{
    let mut out = copied_bytes(base);
    if base.len() > 0 && base[base.len() - 1] != SLASH {
        out.push(SLASH);
    }
    append_bytes(&mut out, name);
    out
}

/// `directories::ProjectDirs::from` names the cache directory of an application, where
/// the operating system has one. It depends on the environment of the process: nothing
/// is claimed of the result.
#[verifier::external_body]
fn os_cache_dir(qualifier: &str, organization: &str, application: &str) -> (r: Option<Vec<u8>>) {
    directories::ProjectDirs::from(qualifier, organization, application).map(
        |dirs| dirs.cache_dir().as_os_str().as_encoded_bytes().to_vec(),
    )
}

/// The parent directory of every project's cache, below a base directory.
pub open spec fn projects_directory(base: Seq<u8>) -> Seq<u8> {
    path_join(base, encode_utf8("projects"@))
}

/// The external on-disk location assigned to one project. Paths are held as the
/// bytes of their native spelling.
#[derive(Debug, Clone, PartialEq, Eq)]
pub struct CacheLocation {
    pub project_key: ProjectKey,
    pub directory: Vec<u8>,
    pub database_path: Vec<u8>,
}

/// The location of a project's cache below a base directory; the root is given by its
/// native bytes.
pub open spec fn is_location(
    l: CacheLocation,
    base: Seq<u8>,
    platform: Platform,
    root: Seq<u8>,
) -> bool {
    &&& l.project_key@ == blake3_of(project_key_preimage(platform, root))
    &&& l.directory@ == path_join(projects_directory(base), encode_utf8(hex(l.project_key@)))
    &&& l.database_path@ == path_join(l.directory@, encode_utf8("cache.sqlite3"@))
}

/// The location of a project's cache below some base directory.
pub open spec fn is_some_location(l: CacheLocation, platform: Platform, root: Seq<u8>) -> bool {
    exists|base: Seq<u8>| is_location(l, base, platform, root)
}

/// The location of a project's cache that is chosen: below the given base, or below that
/// of the operating system, unless it would lie in the root as it is spelled.
pub open spec fn is_chosen_location(
    r: Option<CacheLocation>,
    cache_base: Option<&[u8]>,
    spelled: Seq<u8>,
    platform: Platform,
    root: Seq<u8>,
) -> bool {
    match r {
        Some(l) => {
            &&& is_some_location(l, platform, root)
            &&& lies_outside(l, spelled)
            &&& cache_base matches Some(base) ==> is_location(l, base@, platform, root)
        },
        None => cache_base matches Some(base) ==> exists|l: CacheLocation| #[trigger]
            is_location(l, base@, platform, root) && !lies_outside(l, spelled),
    }
}

impl CacheLocation {
    /// The parent directory holding every project's cache, independent of any
    /// specific project: `projects` below the injected base or the OS cache
    /// directory.
    pub fn projects_root(cache_base: Option<&[u8]>) -> (r: Option<Vec<u8>>)
        ensures
            cache_base matches Some(base) ==> r is Some && r->0@ == projects_directory(base@),
            r is Some ==> exists|base: Seq<u8>| r->0@ == #[trigger] projects_directory(base),
    {
        match cache_base {
            Some(base) => Some(join_path(base, "projects".as_bytes())),
            None => match os_cache_dir("org", "code2graph", "code2graph") {
                Some(base) => {
                    let root = join_path(base.as_slice(), "projects".as_bytes());
                    assert(root@ == projects_directory(base@));
                    Some(root)
                },
                None => None,
            },
        }
    }

    /// The location of a project's cache below a base directory.
    pub fn below(base: &[u8], platform: Platform, native_root: &[u8]) -> (r: Self)
        ensures
            is_location(r, base@, platform, native_root@),
    {
        let projects = join_path(base, "projects".as_bytes());
        let key = ProjectKey::from_native_root(platform, native_root);
        let name = key.to_text();
        let directory = join_path(projects.as_slice(), name.as_str().as_bytes());
        let database_path = join_path(directory.as_slice(), "cache.sqlite3".as_bytes());
        CacheLocation { project_key: key, directory, database_path }
    }

    /// Select an injected base or the OS cache directory; this never places data in the
    /// project: a base below which the cache would lie in the root, as the paths are
    /// spelled, is refused.
    pub fn for_project(cache_base: Option<&[u8]>, canonical_root: &[u8]) -> (r: Option<Self>)
        ensures
            is_chosen_location(r, cache_base, canonical_root@, Platform::Unix, canonical_root@),
    {
        CacheLocation::for_native_project(
            cache_base,
            canonical_root,
            Platform::Unix,
            canonical_root,
        )
    }

    /// Select an injected base or the OS cache directory for a project of a platform. The
    /// root is given as it is spelled and by the native bytes that identify it.
    pub fn for_native_project(
        cache_base: Option<&[u8]>,
        canonical_root: &[u8],
        platform: Platform,
        native_root: &[u8],
    ) -> (r: Option<Self>)
        ensures
            is_chosen_location(r, cache_base, canonical_root@, platform, native_root@),
    {
        let base = match cache_base {
            Some(base) => copied_bytes(base),
            None => match os_cache_dir("org", "code2graph", "code2graph") {
                Some(base) => base,
                None => {
                    return None;
                },
            },
        };
        let location = CacheLocation::below(base.as_slice(), platform, native_root);
        assert(is_location(location, base@, platform, native_root@));
        if is_inside(location.directory.as_slice(), canonical_root) || is_inside(
            location.database_path.as_slice(),
            canonical_root,
        ) {
            return None;
        }
        Some(location)
    }
}

/// Nothing of the cache lies in the project.
pub open spec fn lies_outside(l: CacheLocation, root: Seq<u8>) -> bool {
    !lies_in(l.directory@, root) && !lies_in(l.database_path@, root)
}

/// Below a base that lies in the project there is no place for its cache.
pub proof fn bases_in_the_project_are_refused(
    l: CacheLocation,
    base: Seq<u8>,
    platform: Platform,
    native: Seq<u8>,
    root: Seq<u8>,
)
    requires
        is_location(l, base, platform, native),
        base.len() > 0,
        lies_in(base, root),
    ensures
        !lies_outside(l, root),
        lies_in(l.directory@, root),
        lies_in(l.database_path@, root),
{
    let projects = projects_directory(base);
    names_stay_inside(base, encode_utf8("projects"@), root);
    names_stay_inside(projects, encode_utf8(hex(l.project_key@)), root);
    names_stay_inside(l.directory@, encode_utf8("cache.sqlite3"@), root);
}

/// The location below a base is determined by the base and the root.
pub proof fn locations_are_determined(
    a: CacheLocation,
    b: CacheLocation,
    base: Seq<u8>,
    platform: Platform,
    root: Seq<u8>,
)
    requires
        is_location(a, base, platform, root),
        is_location(b, base, platform, root),
    ensures
        a.project_key@ == b.project_key@,
        a.directory@ == b.directory@,
        a.database_path@ == b.database_path@,
{
}

/// The database lies in the project's cache directory, and that below the base.
pub proof fn database_lies_below_its_base(
    l: CacheLocation,
    base: Seq<u8>,
    platform: Platform,
    root: Seq<u8>,
)
    requires
        is_location(l, base, platform, root),
    ensures
        crate::text::begins_with(l.database_path@, l.directory@),
        crate::text::begins_with(l.directory@, base),
        crate::text::begins_with(l.database_path@, base),
{
    let p = projects_directory(base);
    assert(p.take(base.len() as int) =~= base);
    assert(l.directory@.take(p.len() as int) =~= p);
    assert(l.directory@.take(base.len() as int) =~= base);
    assert(l.database_path@.take(l.directory@.len() as int) =~= l.directory@);
    assert(l.database_path@.take(base.len() as int) =~= base);
}

} // verus!
