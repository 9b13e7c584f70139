//! Schema contract of the project cache database, and the decisions that open one.

use vstd::prelude::*;
use vstd::string::*;
use std::time::Duration;
use crate::cache::types::CacheError;
use crate::deadline::{nanoseconds, time_left, whole_nanoseconds, Deadline};
use crate::inventory::types::StableIoErrorKind;
use crate::text::{chars_of, same_bytes, same_text};

verus! {

/// Version of the database schema.
pub const SCHEMA_VERSION: i64 = 1;

/// The application identity in the header of the database file.
pub const APPLICATION_ID: i64 = 0x4332_4731;

/// The application identity in the database.
pub const APPLICATION_IDENTITY: &'static str = "code2graph-cache";

/// A table or an index, with the statement that creates it.
#[derive(Debug, Clone, Copy, PartialEq, Eq)]
pub struct SchemaObject {
    pub name: &'static str,
    pub sql: &'static str,
}

/// The names and statements.
pub open spec fn object_views(v: Seq<SchemaObject>) -> Seq<(Seq<char>, Seq<char>)> {
    v.map_values(|o: SchemaObject| (o.name@, o.sql@))
}

/// The tables, in the order in which they are created.
pub open spec fn schema_tables_spec() -> Seq<(Seq<char>, Seq<char>)> {
    seq![
        (
            "meta"@,
            "CREATE TABLE meta (singleton INTEGER PRIMARY KEY CHECK (singleton = 1), application_identity TEXT NOT NULL CHECK (application_identity = 'code2graph-cache'), canonical_root BLOB NOT NULL, project_key BLOB NOT NULL CHECK (length(project_key) = 32))"@,
        ),
        (
            "compatibility"@,
            "CREATE TABLE compatibility (compatibility_id BLOB PRIMARY KEY CHECK (length(compatibility_id) = 32), language_fingerprint BLOB NOT NULL CHECK (length(language_fingerprint) = 32), package_fingerprint BLOB NOT NULL CHECK (length(package_fingerprint) = 32), created_at_ns INTEGER NOT NULL CHECK (created_at_ns >= 0), UNIQUE (language_fingerprint, package_fingerprint))"@,
        ),
        (
            "candidates"@,
            "CREATE TABLE candidates (candidate_id BLOB PRIMARY KEY CHECK (length(candidate_id) = 32), compatibility_id BLOB NOT NULL REFERENCES compatibility(compatibility_id), input_digest BLOB NOT NULL CHECK (length(input_digest) = 32), completeness INTEGER NOT NULL CHECK (completeness IN (0, 1)), created_at_ns INTEGER NOT NULL CHECK (created_at_ns >= 0), inventory_file_count INTEGER NOT NULL CHECK (inventory_file_count >= 0), inventory_total_bytes INTEGER NOT NULL CHECK (inventory_total_bytes >= 0))"@,
        ),
        (
            "candidate_omissions"@,
            "CREATE TABLE candidate_omissions (candidate_id BLOB NOT NULL REFERENCES candidates(candidate_id) ON DELETE CASCADE, path TEXT NOT NULL CHECK (path <> '' AND instr(path, '\\') = 0), reason TEXT NOT NULL CHECK (reason <> ''), detail TEXT NOT NULL, PRIMARY KEY (candidate_id, path, reason))"@,
        ),
        (
            "candidate_files"@,
            "CREATE TABLE candidate_files (candidate_id BLOB NOT NULL REFERENCES candidates(candidate_id) ON DELETE CASCADE, path TEXT NOT NULL CHECK (path <> '' AND instr(path, '\\') = 0), language TEXT NOT NULL CHECK (language <> ''), content_hash BLOB NOT NULL CHECK (length(content_hash) = 32), size_bytes INTEGER NOT NULL CHECK (size_bytes >= 0), mtime_seconds INTEGER, mtime_nanoseconds INTEGER CHECK (mtime_nanoseconds IS NULL OR (mtime_nanoseconds >= 0 AND mtime_nanoseconds < 1000000000)), package_assignment TEXT NOT NULL CHECK (package_assignment <> ''), file_facts BLOB NOT NULL CHECK (length(file_facts) <= 16777216), file_subgraph BLOB CHECK (file_subgraph IS NULL OR length(file_subgraph) <= 16777216), CHECK ((mtime_seconds IS NULL) = (mtime_nanoseconds IS NULL)), PRIMARY KEY (candidate_id, path))"@,
        ),
        (
            "graph_snapshots"@,
            "CREATE TABLE graph_snapshots (snapshot_id INTEGER PRIMARY KEY, candidate_id BLOB NOT NULL REFERENCES candidates(candidate_id) ON DELETE CASCADE, resolver_tier TEXT NOT NULL CHECK (resolver_tier IN ('name', 'scope', 'dense')), graph BLOB NOT NULL CHECK (length(graph) <= 16777216), created_at_ns INTEGER NOT NULL CHECK (created_at_ns >= 0), UNIQUE (candidate_id, resolver_tier))"@,
        ),
        (
            "active_snapshots"@,
            "CREATE TABLE active_snapshots (resolver_tier TEXT NOT NULL CHECK (resolver_tier IN ('name', 'scope', 'dense')), completeness INTEGER NOT NULL CHECK (completeness IN (0, 1)), snapshot_id INTEGER NOT NULL REFERENCES graph_snapshots(snapshot_id) ON DELETE CASCADE, PRIMARY KEY (resolver_tier, completeness))"@,
        ),
    ]
}

/// The tables, in the order in which they are created.
pub fn schema_tables() -> (r: Vec<SchemaObject>)
    ensures
        object_views(r@) == schema_tables_spec(),
{
    let mut r: Vec<SchemaObject> = Vec::new();
    r.push(
        SchemaObject {
            name: "meta",
            sql: "CREATE TABLE meta (singleton INTEGER PRIMARY KEY CHECK (singleton = 1), application_identity TEXT NOT NULL CHECK (application_identity = 'code2graph-cache'), canonical_root BLOB NOT NULL, project_key BLOB NOT NULL CHECK (length(project_key) = 32))",
        },
    );
    r.push(
        SchemaObject {
            name: "compatibility",
            sql: "CREATE TABLE compatibility (compatibility_id BLOB PRIMARY KEY CHECK (length(compatibility_id) = 32), language_fingerprint BLOB NOT NULL CHECK (length(language_fingerprint) = 32), package_fingerprint BLOB NOT NULL CHECK (length(package_fingerprint) = 32), created_at_ns INTEGER NOT NULL CHECK (created_at_ns >= 0), UNIQUE (language_fingerprint, package_fingerprint))",
        },
    );
    r.push(
        SchemaObject {
            name: "candidates",
            sql: "CREATE TABLE candidates (candidate_id BLOB PRIMARY KEY CHECK (length(candidate_id) = 32), compatibility_id BLOB NOT NULL REFERENCES compatibility(compatibility_id), input_digest BLOB NOT NULL CHECK (length(input_digest) = 32), completeness INTEGER NOT NULL CHECK (completeness IN (0, 1)), created_at_ns INTEGER NOT NULL CHECK (created_at_ns >= 0), inventory_file_count INTEGER NOT NULL CHECK (inventory_file_count >= 0), inventory_total_bytes INTEGER NOT NULL CHECK (inventory_total_bytes >= 0))",
        },
    );
    r.push(
        SchemaObject {
            name: "candidate_omissions",
            sql: "CREATE TABLE candidate_omissions (candidate_id BLOB NOT NULL REFERENCES candidates(candidate_id) ON DELETE CASCADE, path TEXT NOT NULL CHECK (path <> '' AND instr(path, '\\') = 0), reason TEXT NOT NULL CHECK (reason <> ''), detail TEXT NOT NULL, PRIMARY KEY (candidate_id, path, reason))",
        },
    );
    r.push(
        SchemaObject {
            name: "candidate_files",
            sql: "CREATE TABLE candidate_files (candidate_id BLOB NOT NULL REFERENCES candidates(candidate_id) ON DELETE CASCADE, path TEXT NOT NULL CHECK (path <> '' AND instr(path, '\\') = 0), language TEXT NOT NULL CHECK (language <> ''), content_hash BLOB NOT NULL CHECK (length(content_hash) = 32), size_bytes INTEGER NOT NULL CHECK (size_bytes >= 0), mtime_seconds INTEGER, mtime_nanoseconds INTEGER CHECK (mtime_nanoseconds IS NULL OR (mtime_nanoseconds >= 0 AND mtime_nanoseconds < 1000000000)), package_assignment TEXT NOT NULL CHECK (package_assignment <> ''), file_facts BLOB NOT NULL CHECK (length(file_facts) <= 16777216), file_subgraph BLOB CHECK (file_subgraph IS NULL OR length(file_subgraph) <= 16777216), CHECK ((mtime_seconds IS NULL) = (mtime_nanoseconds IS NULL)), PRIMARY KEY (candidate_id, path))",
        },
    );
    r.push(
        SchemaObject {
            name: "graph_snapshots",
            sql: "CREATE TABLE graph_snapshots (snapshot_id INTEGER PRIMARY KEY, candidate_id BLOB NOT NULL REFERENCES candidates(candidate_id) ON DELETE CASCADE, resolver_tier TEXT NOT NULL CHECK (resolver_tier IN ('name', 'scope', 'dense')), graph BLOB NOT NULL CHECK (length(graph) <= 16777216), created_at_ns INTEGER NOT NULL CHECK (created_at_ns >= 0), UNIQUE (candidate_id, resolver_tier))",
        },
    );
    r.push(
        SchemaObject {
            name: "active_snapshots",
            sql: "CREATE TABLE active_snapshots (resolver_tier TEXT NOT NULL CHECK (resolver_tier IN ('name', 'scope', 'dense')), completeness INTEGER NOT NULL CHECK (completeness IN (0, 1)), snapshot_id INTEGER NOT NULL REFERENCES graph_snapshots(snapshot_id) ON DELETE CASCADE, PRIMARY KEY (resolver_tier, completeness))",
        },
    );
    assert(object_views(r@) =~= schema_tables_spec());
    r
}

/// The indexes, in the order in which they are created.
pub open spec fn schema_indexes_spec() -> Seq<(Seq<char>, Seq<char>)> {
    seq![
        (
            "candidates_compatibility_idx"@,
            "CREATE INDEX candidates_compatibility_idx ON candidates (compatibility_id)"@,
        ),
        (
            "candidate_files_path_idx"@,
            "CREATE INDEX candidate_files_path_idx ON candidate_files (path)"@,
        ),
        (
            "graph_snapshots_candidate_idx"@,
            "CREATE INDEX graph_snapshots_candidate_idx ON graph_snapshots (candidate_id)"@,
        ),
    ]
}

/// The indexes, in the order in which they are created.
pub fn schema_indexes() -> (r: Vec<SchemaObject>)
    ensures
        object_views(r@) == schema_indexes_spec(),
{
    let mut r: Vec<SchemaObject> = Vec::new();
    r.push(
        SchemaObject {
            name: "candidates_compatibility_idx",
            sql: "CREATE INDEX candidates_compatibility_idx ON candidates (compatibility_id)",
        },
    );
    r.push(
        SchemaObject {
            name: "candidate_files_path_idx",
            sql: "CREATE INDEX candidate_files_path_idx ON candidate_files (path)",
        },
    );
    r.push(
        SchemaObject {
            name: "graph_snapshots_candidate_idx",
            sql: "CREATE INDEX graph_snapshots_candidate_idx ON graph_snapshots (candidate_id)",
        },
    );
    assert(object_views(r@) =~= schema_indexes_spec());
    r
}

/// What a database tells of the project that it belongs to.
#[derive(Debug, Clone, PartialEq, Eq)]
pub struct MetaRow {
    pub application_identity: String,
    pub canonical_root: Vec<u8>,
    pub project_key: Vec<u8>,
}

/// What was found in a database: the statements of its objects in the order of the
/// schema, and the failures of reading them.
#[derive(Debug)]
pub struct ObservedSchema {
    pub application_id: Result<i64, CacheError>,
    pub tables: Vec<Result<Option<String>, CacheError>>,
    pub indexes: Vec<Result<Option<String>, CacheError>>,
    pub meta: Result<Option<MetaRow>, CacheError>,
}

/// Why an object is not the one of the schema, if it is not.
pub open spec fn object_fault(
    found: Result<Option<String>, CacheError>,
    expected: Seq<char>,
) -> Option<CacheError> {
    match found {
        Err(e) => Some(e),
        Ok(None) => Some(CacheError::Incompatible),
        Ok(Some(sql)) => if sql@ == expected {
            None
        } else {
            Some(CacheError::Incompatible)
        },
    }
}

/// Checks the statement of one object. The whole statement counts: folding its
/// white space could hide a change inside a string literal.
pub fn validate_object(found: &Result<Option<String>, CacheError>, expected: &str) -> (r: Result<
    (),
    CacheError,
>)
    ensures
        match object_fault(*found, expected@) {
            Some(e) => r == Err::<(), CacheError>(e),
            None => r is Ok,
        },
{
    match found {
        Ok(Some(sql)) => if same_text(sql.as_str(), expected) {
            Ok(())
        } else {
            Err(CacheError::Incompatible)
        },
        Ok(None) => Err(CacheError::Incompatible),
        Err(e) => Err(*e),
    }
}

/// What was found for the object of the place; nothing beyond the end.
pub open spec fn found_at(found: Seq<Result<Option<String>, CacheError>>, i: int) -> Result<
    Option<String>,
    CacheError,
> {
    if 0 <= i < found.len() {
        found[i]
    } else {
        Ok(None)
    }
}

/// Why one of the first `n` objects is not the one of the schema, the first such
/// object first.
pub open spec fn objects_fault(
    found: Seq<Result<Option<String>, CacheError>>,
    expected: Seq<(Seq<char>, Seq<char>)>,
    n: int,
) -> Option<CacheError>
    decreases n,
{
    if n <= 0 {
        None
    } else {
        match objects_fault(found, expected, n - 1) {
            Some(e) => Some(e),
            None => object_fault(found_at(found, n - 1), expected[n - 1].1),
        }
    }
}

proof fn lemma_objects_fault_stays(
    found: Seq<Result<Option<String>, CacheError>>,
    expected: Seq<(Seq<char>, Seq<char>)>,
    m: int,
    n: int,
)
    requires
        m <= n,
        objects_fault(found, expected, m) is Some,
    ensures
        objects_fault(found, expected, n) == objects_fault(found, expected, m),
    decreases n - m,
{
    if m < n {
        lemma_objects_fault_stays(found, expected, m, n - 1);
    }
}

fn validate_objects(
    found: &Vec<Result<Option<String>, CacheError>>,
    expected: &Vec<SchemaObject>,
) -> (r: Result<(), CacheError>)
    ensures
        match objects_fault(found@, object_views(expected@), expected@.len() as int) {
            Some(e) => r == Err::<(), CacheError>(e),
            None => r is Ok,
        },
{
    let ghost all = object_views(expected@);
    let mut i: usize = 0;
    while i < expected.len()
        invariant
            i <= expected.len(),
            all == object_views(expected@),
            objects_fault(found@, all, i as int) is None,
        decreases expected.len() - i,
    {
        assert(all[i as int].1 == expected@[i as int].sql@);
        let missing: Result<Option<String>, CacheError> = Ok(None);
        let checked = if i < found.len() {
            validate_object(&found[i], expected[i].sql)
        } else {
            validate_object(&missing, expected[i].sql)
        };
        match checked {
            Ok(()) => {},
            Err(e) => {
                proof {
                    assert(objects_fault(found@, all, i + 1) == Some(e));
                    lemma_objects_fault_stays(found@, all, i + 1, all.len() as int);
                }
                return Err(e);
            },
        }
        i += 1;
    }
    Ok(())
}

/// Why a database does not belong to the project, if it does not.
pub open spec fn meta_fault(
    meta: Result<Option<MetaRow>, CacheError>,
    root: Seq<u8>,
    key: Seq<u8>,
) -> Option<CacheError> {
    match meta {
        Err(e) => Some(e),
        Ok(None) => Some(CacheError::Incompatible),
        Ok(Some(row)) => if row.application_identity@ != APPLICATION_IDENTITY@ {
            Some(CacheError::Incompatible)
        } else if row.project_key@ != key || row.canonical_root@ != root {
            Some(CacheError::RootMismatch)
        } else {
            None
        },
    }
}

/// Why a database is not a cache of the project in this schema, if it is not.
pub open spec fn schema_fault(observed: ObservedSchema, root: Seq<u8>, key: Seq<u8>) -> Option<
    CacheError,
> {
    match observed.application_id {
        Err(e) => Some(e),
        Ok(id) => if id != APPLICATION_ID {
            Some(CacheError::Incompatible)
        } else {
            match objects_fault(
                observed.tables@,
                schema_tables_spec(),
                schema_tables_spec().len() as int,
            ) {
                Some(e) => Some(e),
                None => match objects_fault(
                    observed.indexes@,
                    schema_indexes_spec(),
                    schema_indexes_spec().len() as int,
                ) {
                    Some(e) => Some(e),
                    None => meta_fault(observed.meta, root, key),
                },
            }
        },
    }
}

/// Checks that a database is a cache of the project in this schema.
pub fn validate_v1(observed: &ObservedSchema, root: &[u8], project_key: &[u8; 32]) -> (r: Result<
    (),
    CacheError,
>)
    ensures
        match schema_fault(*observed, root@, project_key@) {
            Some(e) => r == Err::<(), CacheError>(e),
            None => r is Ok,
        },
{
    match &observed.application_id {
        Ok(id) => if *id != APPLICATION_ID {
            return Err(CacheError::Incompatible);
        },
        Err(e) => {
            return Err(*e);
        },
    }
    let tables = schema_tables();
    assert(object_views(tables@).len() == tables@.len());
    match validate_objects(&observed.tables, &tables) {
        Ok(()) => {},
        Err(e) => {
            return Err(e);
        },
    }
    let indexes = schema_indexes();
    assert(object_views(indexes@).len() == indexes@.len());
    match validate_objects(&observed.indexes, &indexes) {
        Ok(()) => {},
        Err(e) => {
            return Err(e);
        },
    }
    match &observed.meta {
        Ok(Some(row)) => if !same_text(row.application_identity.as_str(), APPLICATION_IDENTITY) {
            Err(CacheError::Incompatible)
        } else if !same_bytes(row.project_key.as_slice(), project_key.as_slice()) || !same_bytes(
            row.canonical_root.as_slice(),
            root,
        ) {
            Err(CacheError::RootMismatch)
        } else {
            Ok(())
        },
        Ok(None) => Err(CacheError::Incompatible),
        Err(e) => Err(*e),
    }
}

/// What opening a database does next.
#[derive(Debug, Clone, Copy, PartialEq, Eq, Structural)]
pub enum OpenStep {
    /// The schema is created, under the write lock.
    Initialize,
    /// The schema is there and is validated.
    Validate,
}

/// Decides how a database is opened for writing, by its version.
pub fn open_writable_step(version: i64) -> (r: Result<OpenStep, CacheError>)
    ensures
        version == 0 ==> r == Ok::<OpenStep, CacheError>(OpenStep::Initialize),
        version == SCHEMA_VERSION ==> r == Ok::<OpenStep, CacheError>(OpenStep::Validate),
        version != 0 && version != SCHEMA_VERSION ==> r == Err::<OpenStep, CacheError>(
            CacheError::UnsupportedSchema,
        ),
{
    if version == 0 {
        Ok(OpenStep::Initialize)
    } else if version == SCHEMA_VERSION {
        Ok(OpenStep::Validate)
    } else {
        Err(CacheError::UnsupportedSchema)
    }
}

/// Decides whether a database can be opened for reading, by whether its file is
/// there and by its version: a successful result is then validated.
pub fn open_read_only_step(is_file: bool, version: i64) -> (r: Result<(), CacheError>)
    ensures
        !is_file ==> r == Err::<(), CacheError>(CacheError::Missing),
        is_file && version == SCHEMA_VERSION ==> r is Ok,
        is_file && version == 0 ==> r == Err::<(), CacheError>(CacheError::Incompatible),
        is_file && version != 0 && version != SCHEMA_VERSION ==> r == Err::<(), CacheError>(
            CacheError::UnsupportedSchema,
        ),
{
    if !is_file {
        Err(CacheError::Missing)
    } else if version == SCHEMA_VERSION {
        Ok(())
    } else if version == 0 {
        Err(CacheError::Incompatible)
    } else {
        Err(CacheError::UnsupportedSchema)
    }
}

/// A database is initialized only while it is empty and nobody else's.
pub fn ensure_pristine_v0(application_id: i64, object_count: i64) -> (r: Result<(), CacheError>)
    ensures
        r is Ok <==> application_id == 0 && object_count == 0,
        r matches Err(e) ==> e == CacheError::Incompatible,
{
    if application_id != 0 || object_count != 0 {
        Err(CacheError::Incompatible)
    } else {
        Ok(())
    }
}

/// The text spells `wal`, in small or capital letters.
pub open spec fn is_wal(s: Seq<char>) -> bool {
    s.len() == 3 && (s[0] == 'w' || s[0] == 'W') && (s[1] == 'a' || s[1] == 'A') && (s[2] == 'l'
        || s[2] == 'L')
}

/// Checks the settings that a writable database took: foreign keys, write-ahead
/// logging and normal synchronization.
pub fn check_settings(foreign_keys: i64, journal_mode: &str, synchronous: i64) -> (r: Result<
    (),
    CacheError,
>)
    ensures
        r is Ok <==> foreign_keys == 1 && is_wal(journal_mode@) && synchronous == 1,
        r matches Err(e) ==> e == CacheError::Access,
{
    let mode = chars_of(journal_mode);
    let wal = mode.len() == 3 && (mode[0] == 'w' || mode[0] == 'W') && (mode[1] == 'a' || mode[1]
        == 'A') && (mode[2] == 'l' || mode[2] == 'L');
    if foreign_keys != 1 || !wal || synchronous != 1 {
        Err(CacheError::Access)
    } else {
        Ok(())
    }
}

/// The longest wait for a lock, in nanoseconds.
pub const LOCK_WAIT_CAP_NS: u64 = 2_000_000_000;

/// How long to wait for a lock, from the nanoseconds that are left; an empty rest is
/// a timeout.
pub fn busy_timeout(remaining_ns: Option<u64>) -> (r: Result<u64, CacheError>)
    ensures
        match remaining_ns {
            None => r == Ok::<u64, CacheError>(LOCK_WAIT_CAP_NS),
            Some(ns) => if ns == 0 {
                r == Err::<u64, CacheError>(CacheError::Timeout)
            } else {
                r == Ok::<u64, CacheError>(
                    if ns < LOCK_WAIT_CAP_NS {
                        ns
                    } else {
                        LOCK_WAIT_CAP_NS
                    },
                )
            },
        },
{
    match remaining_ns {
        None => Ok(LOCK_WAIT_CAP_NS),
        Some(ns) => if ns == 0 {
            Err(CacheError::Timeout)
        } else if ns < LOCK_WAIT_CAP_NS {
            Ok(ns)
        } else {
            Ok(LOCK_WAIT_CAP_NS)
        },
    }
}

/// How long to wait for a lock under a deadline, in nanoseconds: what the clock leaves of
/// it, up to the longest wait.
pub fn lock_wait(deadline: &Deadline) -> (r: Result<u64, CacheError>)
    ensures
        match r {
            Ok(wait) => if deadline.limited() {
                exists|passed: Duration| #[trigger]
                    deadline.may_have_passed(passed) && ({
                        let left = time_left(deadline.span()->0, nanoseconds(passed));
                        left > 0 && wait == if left < LOCK_WAIT_CAP_NS {
                            left
                        } else {
                            LOCK_WAIT_CAP_NS as nat
                        }
                    })
            } else {
                wait == LOCK_WAIT_CAP_NS
            },
            Err(e) => e == CacheError::Timeout && deadline.may_be_used_up(),
        },
{
    let left: Option<u64> = match deadline.remaining() {
        Some(left) => Some(whole_nanoseconds(left)),
        None => None,
    };
    busy_timeout(left)
}

/// The tables that hold what can be derived anew from the sources. What refers to another
/// table comes before it, so that they can be emptied in this order.
pub fn derived_tables() -> (r: Vec<&'static str>)
    ensures
        r@.map_values(|name: &'static str| name@) == seq![
            "active_snapshots"@,
            "graph_snapshots"@,
            "candidate_files"@,
            "candidate_omissions"@,
            "candidates"@,
            "compatibility"@,
        ],
{
    let tables: Vec<&'static str> = vec![
        "active_snapshots",
        "graph_snapshots",
        "candidate_files",
        "candidate_omissions",
        "candidates",
        "compatibility",
    ];
    assert(tables@.map_values(|name: &'static str| name@) =~= seq![
        "active_snapshots"@,
        "graph_snapshots"@,
        "candidate_files"@,
        "candidate_omissions"@,
        "candidates"@,
        "compatibility"@,
    ]);
    tables
}

/// What went wrong in the database engine.
#[derive(Debug, Clone, Copy, PartialEq, Eq, Structural)]
pub enum DatabaseFault {
    Busy,
    Locked,
    ReadOnly,
    NotADatabase,
    DamagedFile,
    OtherFailure,
    /// A stored value is not of the type that was asked for.
    UnreadableValue,
    Other,
}

/// Maps a failure of the database engine; once the time is used up, that is the
/// failure.
pub fn map_sqlite_error(fault: DatabaseFault, expired: bool) -> (r: CacheError)
    ensures
        expired ==> r == CacheError::Timeout,
        !expired ==> r == (match fault {
            DatabaseFault::Busy | DatabaseFault::Locked => CacheError::LockContention,
            DatabaseFault::ReadOnly => CacheError::ReadOnly,
            DatabaseFault::NotADatabase
            | DatabaseFault::DamagedFile
            | DatabaseFault::UnreadableValue => CacheError::Corrupt,
            DatabaseFault::OtherFailure | DatabaseFault::Other => CacheError::Access,
        }),
{
    if expired {
        return CacheError::Timeout;
    }
    match fault {
        DatabaseFault::Busy | DatabaseFault::Locked => CacheError::LockContention,
        DatabaseFault::ReadOnly => CacheError::ReadOnly,
        DatabaseFault::NotADatabase
        | DatabaseFault::DamagedFile
        | DatabaseFault::UnreadableValue => CacheError::Corrupt,
        DatabaseFault::OtherFailure | DatabaseFault::Other => CacheError::Access,
    }
}

/// Maps a failure of the database engine while a schema is validated: what cannot be
/// read is not this schema.
pub fn map_validation_error(fault: DatabaseFault) -> (r: CacheError)
    ensures
        r == (match fault {
            DatabaseFault::NotADatabase | DatabaseFault::DamagedFile => CacheError::Corrupt,
            DatabaseFault::Busy | DatabaseFault::Locked => CacheError::LockContention,
            DatabaseFault::ReadOnly => CacheError::ReadOnly,
            DatabaseFault::OtherFailure
            | DatabaseFault::UnreadableValue
            | DatabaseFault::Other => CacheError::Incompatible,
        }),
{
    match fault {
        DatabaseFault::NotADatabase | DatabaseFault::DamagedFile => CacheError::Corrupt,
        DatabaseFault::Busy | DatabaseFault::Locked => CacheError::LockContention,
        DatabaseFault::ReadOnly => CacheError::ReadOnly,
        DatabaseFault::OtherFailure
        | DatabaseFault::UnreadableValue
        | DatabaseFault::Other => CacheError::Incompatible,
    }
}

/// Maps a failure of the file system below the cache.
pub fn map_io_error(kind: StableIoErrorKind) -> (r: CacheError)
    ensures
        r == (if kind == StableIoErrorKind::PermissionDenied {
            CacheError::ReadOnly
        } else {
            CacheError::Access
        }),
{
    if kind == StableIoErrorKind::PermissionDenied {
        CacheError::ReadOnly
    } else {
        CacheError::Access
    }
}

/// Reads the version of a schema; one that does not fit is not one of these.
pub fn schema_version(version: i64) -> (r: Result<u32, CacheError>)
    ensures
        match r {
            Ok(v) => v == version,
            Err(e) => e == CacheError::Incompatible && !(0 <= version <= u32::MAX),
        },
{
    if 0 <= version && version <= u32::MAX as i64 {
        Ok(version as u32)
    } else {
        Err(CacheError::Incompatible)
    }
}

} // verus!
