//! Laws of the smaller decisions: what is opened, entered, waited for, accepted and refused.

use std::time::Duration;
use vstd::prelude::*;
use vstd::string::*;
use vstd::utf8::*;
use crate::bindings::{custom_rules, graph_resolver, GraphResolver, QueryBindingRuleInput};
use crate::cache::schema::{
    busy_timeout, check_settings, ensure_pristine_v0, map_io_error, map_sqlite_error,
    map_validation_error, open_read_only_step, open_writable_step, schema_version, DatabaseFault,
    OpenStep,
};
use crate::cache::transaction::{next_stage, TransactionNext, TransactionStage};
use crate::cache::types::{CacheCompleteness, CacheError, ResolverCacheTier};
use crate::config::{
    convert_rule, load_query_binding_rules, ConfigRead, GlobalOptions, QueryBindingRule,
    RawQueryBindingRule, ResolverTier,
};
use crate::deadline::{nanoseconds, whole_milliseconds, whole_nanoseconds};
use crate::error::{cache_failure, CliError};
use crate::execution::cache_policy::open_frozen_failure;
use crate::execution::context::checked_unix_time;
use crate::execution::dispatch::{loads_snapshots, purpose_of, requests_json, CommandPlan};
use crate::execution::lifecycle::{LifecycleOptions, Purpose};
use crate::graph::Language;
use crate::inventory::types::{FileClassification, OmissionReason, StableIoErrorKind};
use crate::inventory::walk::enters;
use crate::package_assignment::types::ManifestParserKind;
use crate::refresh::plan::classification_omission;
use crate::refresh::prepare::recovery::bounded_detail;
use crate::request::CommandRequest;
use crate::text::{decimal, encode_concat, lossy_text};
use crate::worker::{WorkerAttemptFailure, WorkerErrorCode, WorkerFailure};

verus! {

/// Only an index makes a snapshot and only a status tells about one; everything else queries
/// one. Only an index works on whole snapshots.
pub proof fn purposes_follow_from_commands(
    plan: &CommandPlan<'_>,
    purpose: Purpose,
    command: &CommandRequest,
    whole: bool,
)
    requires
        call_ensures(purpose_of, (plan,), purpose),
        call_ensures(loads_snapshots, (command,), whole),
    ensures
        purpose == Purpose::Index <==> plan is Index,
        purpose == Purpose::Status <==> plan is Status,
        purpose != Purpose::Graph,
        whole <==> command is Index,
{
}

/// The options of a lifecycle are those that the command was given, each under its own name.
pub proof fn options_keep_their_names(global: &GlobalOptions, options: LifecycleOptions)
    requires
        call_ensures(LifecycleOptions::of, (global,), options),
    ensures
        options.frozen <==> global.frozen,
        options.no_cache <==> global.no_cache,
        options.allow_partial <==> global.allow_partial,
        options.allow_stale <==> global.allow_stale,
{
}

/// JSON is asked for exactly where the option stands among the options: behind the name of the
/// program, and before anything that ends them.
pub proof fn json_is_asked_for_among_the_options(args: &Vec<Vec<u8>>, r: bool)
    requires
        call_ensures(requests_json, (args,), r),
    ensures
        r <==> exists|k: int|
            1 <= k < args@.len() && (#[trigger] args@[k])@ == encode_utf8("--json"@) && forall|j: int|
                1 <= j < k ==> (#[trigger] args@[j])@ != encode_utf8("--"@),
{
    if r {
        let k = choose|k: int| #[trigger] crate::execution::dispatch::is_json_at(args@, k);
        assert(args@[k]@ == encode_utf8("--json"@));
    }
    if exists|k: int|
        1 <= k < args@.len() && (#[trigger] args@[k])@ == encode_utf8("--json"@) && forall|j: int|
            1 <= j < k ==> (#[trigger] args@[j])@ != encode_utf8("--"@) {
        let k = choose|k: int|
            1 <= k < args@.len() && (#[trigger] args@[k])@ == encode_utf8("--json"@) && forall|
                j: int,
            |
                1 <= j < k ==> (#[trigger] args@[j])@ != encode_utf8("--"@);
        assert(crate::execution::dispatch::is_json_at(args@, k));
    }
}

/// A database that is new is initialized, one of this version is validated, and one of any other
/// version is left alone. Only a file is opened for reading, and only in this version; a
/// database is initialized only while it is empty and nobody else's.
pub proof fn databases_are_opened_by_their_version(
    version: i64,
    is_file: bool,
    application_id: i64,
    object_count: i64,
    writable: Result<OpenStep, CacheError>,
    readable: Result<(), CacheError>,
    pristine: Result<(), CacheError>,
)
    requires
        call_ensures(open_writable_step, (version,), writable),
        call_ensures(open_read_only_step, (is_file, version), readable),
        call_ensures(ensure_pristine_v0, (application_id, object_count), pristine),
    ensures
        writable == Ok::<OpenStep, CacheError>(OpenStep::Initialize) <==> version == 0,
        writable == Ok::<OpenStep, CacheError>(OpenStep::Validate) <==> version == 1,
        writable matches Err(e) ==> e == CacheError::UnsupportedSchema,
        readable is Ok <==> is_file && version == 1,
        readable == Err::<(), CacheError>(CacheError::Missing) <==> !is_file,
        readable == Err::<(), CacheError>(CacheError::UnsupportedSchema) <==> is_file && version
            != 0 && version != 1,
        pristine is Ok <==> application_id == 0 && object_count == 0,
{
}

/// A database is written to only with its foreign keys enforced and its log written ahead.
pub proof fn settings_are_insisted_on(
    foreign_keys: i64,
    journal_mode: &str,
    synchronous: i64,
    r: Result<(), CacheError>,
)
    requires
        call_ensures(check_settings, (foreign_keys, journal_mode, synchronous), r),
        r is Ok,
    ensures
        foreign_keys == 1,
        synchronous == 1,
        journal_mode@.len() == 3,
        journal_mode@[0] == 'w' || journal_mode@[0] == 'W',
        journal_mode@[1] == 'a' || journal_mode@[1] == 'A',
        journal_mode@[2] == 'l' || journal_mode@[2] == 'L',
{
}

/// Once the time is used up, that is the failure, whatever the database says; before, a lock is
/// told as a lock and damage as damage.
pub proof fn database_faults_are_told_apart(fault: DatabaseFault, expired: bool, r: CacheError)
    requires
        call_ensures(map_sqlite_error, (fault, expired), r),
    ensures
        r == CacheError::Timeout <==> expired,
        !expired ==> (r == CacheError::LockContention <==> fault == DatabaseFault::Busy || fault
            == DatabaseFault::Locked),
        !expired ==> (r == CacheError::Corrupt <==> fault == DatabaseFault::NotADatabase || fault
            == DatabaseFault::DamagedFile || fault == DatabaseFault::UnreadableValue),
        !expired ==> (r == CacheError::ReadOnly <==> fault == DatabaseFault::ReadOnly),
{
}

/// A lock is waited for no longer than there is time, nor longer than two seconds; without time
/// it is not waited for at all.
pub proof fn locks_are_waited_for_within_the_time(left: Option<u64>, r: Result<u64, CacheError>)
    requires
        call_ensures(busy_timeout, (left,), r),
    ensures
        r is Err <==> left == Some(0u64),
        r matches Err(e) ==> e == CacheError::Timeout,
        r matches Ok(wait) ==> 0 < wait <= 2_000_000_000 && (left is Some ==> wait <= left->0) && (
        wait < 2_000_000_000 ==> left == Some(wait)),
{
}

/// A reading of the clock counts only if it lies behind the epoch and fits.
pub proof fn readings_count_only_if_they_fit(
    reading: Result<u128, String>,
    r: Result<u64, CliError>,
)
    requires
        call_ensures(checked_unix_time, (reading,), r),
    ensures
        r is Ok <==> reading is Ok && reading->Ok_0 <= u64::MAX,
        r matches Ok(ns) ==> ns == reading->Ok_0,
        r matches Err(e) ==> e is Fatal,
{
}

/// Durations are told in whole units, and in the largest number where they are longer.
pub proof fn durations_are_told_in_whole_units(d: Duration, ms: u64, ns: u64)
    requires
        call_ensures(whole_milliseconds, (d,), ms),
        call_ensures(whole_nanoseconds, (d,), ns),
    ensures
        nanoseconds(d) <= u64::MAX ==> ns == nanoseconds(d) && ms * 1_000_000 <= ns && ns < (ms
            + 1) * 1_000_000,
        nanoseconds(d) > u64::MAX ==> ns == u64::MAX,
{
    if nanoseconds(d) <= u64::MAX {
        let n = nanoseconds(d) as int;
        assert(n / 1_000_000 <= n) by (nonlinear_arith)
            requires
                n >= 0,
        ;
        assert(ms == n / 1_000_000);
    }
}

/// A missing cache is a missing snapshot to a frozen command; any other failure stays what it
/// is.
pub proof fn missing_caches_are_missing_snapshots(error: CacheError, r: CliError)
    requires
        call_ensures(open_frozen_failure, (error,), r),
    ensures
        r == CliError::FrozenSnapshotMissing <==> error == CacheError::Missing,
        r == CliError::Timeout <==> error == CacheError::Timeout,
        error != CacheError::Missing && error != CacheError::Timeout ==> r is Cache,
{
}

/// A file is always looked at, and a directory is entered unless its name is one of those that
/// hold no sources of the project: those of version control, of dependencies and of what is
/// built.
pub proof fn directories_without_sources_are_not_entered(
    is_directory: bool,
    name: Option<&str>,
    r: bool,
)
    requires
        call_ensures(enters, (is_directory, name), r),
    ensures
        !is_directory ==> r,
        name is None ==> r,
        is_directory && name is Some ==> (!r <==> {
            let n = name->0@;
            ||| n == ".git"@
            ||| n == ".hg"@
            ||| n == ".svn"@
            ||| n == "node_modules"@
            ||| n == "target"@
            ||| n == "dist"@
            ||| n == "build"@
            ||| n == "coverage"@
            ||| n == ".next"@
            ||| n == ".nuxt"@
            ||| n == ".svelte-kit"@
            ||| n == ".venv"@
            ||| n == "venv"@
            ||| n == "__pycache__"@
        }),
{
    let all = crate::inventory::walk::hard_directories_spec();
    if name is Some {
        let n = name->0@;
        assert(all.len() == 14);
        assert(all[0] == ".git"@ && all[1] == ".hg"@ && all[2] == ".svn"@ && all[3]
            == "node_modules"@ && all[4] == "target"@ && all[5] == "dist"@ && all[6] == "build"@
            && all[7] == "coverage"@ && all[8] == ".next"@ && all[9] == ".nuxt"@ && all[10]
            == ".svelte-kit"@ && all[11] == ".venv"@ && all[12] == "venv"@ && all[13]
            == "__pycache__"@);
        if all.contains(n) {
            let i = choose|i: int| 0 <= i < all.len() && all[i] == n;
            assert(0 <= i < 14);
        }
    }
}

/// A rule is taken exactly where it names a language that is known and a construct, and is then
/// kept as it is.
pub proof fn rules_are_taken_as_they_are(
    raw: RawQueryBindingRule,
    path: &str,
    r: Result<QueryBindingRule, CliError>,
)
    requires
        call_ensures(convert_rule, (raw, path), r),
    ensures
        r is Ok <==> (exists|l: Language| #[trigger] l.tag() == raw.lang@) && raw.construct@.len()
            > 0,
        r matches Ok(rule) ==> rule.lang.tag() == raw.lang@ && rule.construct == raw.construct
            && rule.sql_arg == raw.sql_arg,
        r matches Err(e) ==> e is Fatal,
{
}

/// A project without a configuration has no rules of its own; one that cannot be read or
/// understood stops the command, and one that can gives its rules, all of them in their order.
pub proof fn configurations_are_read_whole(
    read: ConfigRead,
    path: &str,
    r: Result<Vec<QueryBindingRule>, CliError>,
)
    requires
        call_ensures(load_query_binding_rules, (read, path), r),
    ensures
        read is Absent ==> r is Ok && r->Ok_0@.len() == 0,
        read is Unreadable || read is Malformed ==> r is Err && r->Err_0 is Fatal,
        read matches ConfigRead::Tables(raws) ==> (r matches Ok(rules) ==> rules@.len()
            == raws@.len() && forall|i: int|
            0 <= i < raws@.len() ==> (#[trigger] rules@[i]).lang.tag() == raws@[i].lang@
                && rules@[i].construct == raws@[i].construct && rules@[i].sql_arg
                == raws@[i].sql_arg),
{
}

/// The resolution is that by names unless another is asked for, and an unknown one is refused.
pub proof fn resolutions_are_selected_by_name(
    tier: Option<&str>,
    r: Result<GraphResolver, String>,
)
    requires
        call_ensures(graph_resolver, (tier,), r),
    ensures
        tier is None ==> r == Ok::<GraphResolver, String>(GraphResolver::Name),
        r == Ok::<GraphResolver, String>(GraphResolver::Scope) ==> tier is Some && tier->0@
            == "scope"@,
        r == Ok::<GraphResolver, String>(GraphResolver::Name) ==> tier is None || tier->0@
            == "name"@,
        tier is Some && tier->0@ != "name"@ && tier->0@ != "scope"@ ==> r is Err,
{
}

/// Rules of callers are taken all or none, in their order, each as it is.
pub proof fn rules_of_callers_are_taken_all_or_none(
    inputs: Vec<QueryBindingRuleInput>,
    r: Result<Vec<QueryBindingRule>, String>,
)
    requires
        call_ensures(custom_rules, (inputs,), r),
    ensures
        r matches Ok(rules) ==> rules@.len() == inputs@.len() && forall|i: int|
            0 <= i < rules@.len() ==> (#[trigger] rules@[i]).lang.tag() == inputs@[i].lang@
                && rules@[i].construct == inputs@[i].construct && rules@[i].sql_arg
                == inputs@[i].sql_arg,
        r is Err ==> exists|i: int|
            0 <= i < inputs@.len() && forall|l: Language| #[trigger]
                l.tag() != (#[trigger] inputs@[i]).lang@,
{
    if r is Err {
        let i = choose|i: int|
            0 <= i < inputs@.len() && !crate::bindings::is_known_language(
                (#[trigger] inputs@[i]).lang@,
            ) && r->Err_0@ == crate::bindings::unknown_tag_message(inputs@[i].lang@) && forall|
                j: int,
            |
                0 <= j < i ==> crate::bindings::is_known_language((#[trigger] inputs@[j]).lang@);
        assert forall|l: Language| #[trigger] l.tag() != inputs@[i].lang@ by {}
    }
}

/// The end of the time is told apart from the other failures of a cache.
pub proof fn failures_of_the_cache_are_told_apart(error: CacheError, r: CliError)
    requires
        call_ensures(cache_failure, (error,), r),
    ensures
        r == CliError::Timeout <==> error == CacheError::Timeout,
        error != CacheError::Timeout ==> (r matches CliError::Cache(text) && text@
            == error.words()),
{
}

/// A database that is validated is corrupt where its file is damaged or none, contended where
/// it is locked, read-only where it is, and otherwise not one of these.
pub proof fn validations_fail_as_what_they_are(
    fault: DatabaseFault,
    r: CacheError,
    kind: StableIoErrorKind,
    io: CacheError,
    version: i64,
    read: Result<u32, CacheError>,
)
    requires
        call_ensures(map_validation_error, (fault,), r),
        call_ensures(map_io_error, (kind,), io),
        call_ensures(schema_version, (version,), read),
    ensures
        r == CacheError::Corrupt <==> fault == DatabaseFault::NotADatabase || fault
            == DatabaseFault::DamagedFile,
        r == CacheError::LockContention <==> fault == DatabaseFault::Busy || fault
            == DatabaseFault::Locked,
        r == CacheError::ReadOnly <==> fault == DatabaseFault::ReadOnly,
        r == CacheError::Incompatible <==> fault == DatabaseFault::OtherFailure || fault
            == DatabaseFault::UnreadableValue || fault == DatabaseFault::Other,
        io == CacheError::ReadOnly <==> kind == StableIoErrorKind::PermissionDenied,
        io == CacheError::Access <==> kind != StableIoErrorKind::PermissionDenied,
        read is Ok <==> 0 <= version <= u32::MAX,
        read matches Ok(v) ==> v == version,
        read matches Err(e) ==> e == CacheError::Incompatible,
{
}

/// What is stored of a tier and of a completeness reads back as itself.
pub proof fn stored_words_read_back(
    tier: ResolverCacheTier,
    word: &'static str,
    read: Result<ResolverCacheTier, CacheError>,
    completeness: CacheCompleteness,
    number: i64,
    known: Result<CacheCompleteness, CacheError>,
)
    requires
        call_ensures(ResolverCacheTier::as_sql, (tier,), word),
        call_ensures(ResolverCacheTier::from_sql, (word,), read),
        call_ensures(CacheCompleteness::as_sql, (completeness,), number),
        call_ensures(CacheCompleteness::from_sql, (number,), known),
    ensures
        read == Ok::<ResolverCacheTier, CacheError>(tier),
        known == Ok::<CacheCompleteness, CacheError>(completeness),
        number == 0 <==> completeness == CacheCompleteness::Complete,
        tier == ResolverCacheTier::Name ==> word@ == "name"@,
        tier == ResolverCacheTier::Scope ==> word@ == "scope"@,
        tier == ResolverCacheTier::Dense ==> word@ == "dense"@,
{
    reveal_strlit("name");
    reveal_strlit("scope");
    reveal_strlit("dense");
    assert(tier.sql() == word@);
    assert("name"@[0] != "scope"@[0] && "scope"@[0] != "dense"@[0] && "name"@[0] != "dense"@[0]);
    if read is Ok {
        assert(read->Ok_0.sql()[0] == word@[0]);
    }
}

/// A manifest is read by the parser of its name, and a file of any other name is none.
pub proof fn manifests_are_known_by_name(name: &str, r: Option<ManifestParserKind>)
    requires
        call_ensures(ManifestParserKind::for_name, (name,), r),
    ensures
        r == Some(ManifestParserKind::Cargo) <==> name@ == "Cargo.toml"@,
        r == Some(ManifestParserKind::Npm) <==> name@ == "package.json"@,
        r == Some(ManifestParserKind::Go) <==> name@ == "go.mod"@,
        r == Some(ManifestParserKind::Pyproject) <==> name@ == "pyproject.toml"@,
        ManifestParserKind::Cargo.spelling() == "cargo"@,
        ManifestParserKind::Npm.spelling() == "npm"@,
        ManifestParserKind::Go.spelling() == "go"@,
        ManifestParserKind::Pyproject.spelling() == "pypi"@,
{
    reveal_strlit("Cargo.toml");
    reveal_strlit("package.json");
    reveal_strlit("go.mod");
    reveal_strlit("pyproject.toml");
    assert(ManifestParserKind::Cargo.basename() == "Cargo.toml"@);
    assert(ManifestParserKind::Npm.basename() == "package.json"@);
    assert(ManifestParserKind::Go.basename() == "go.mod"@);
    assert(ManifestParserKind::Pyproject.basename() == "pyproject.toml"@);
    assert("Cargo.toml"@.len() == 10 && "package.json"@.len() == 12 && "go.mod"@.len() == 6
        && "pyproject.toml"@.len() == 14);
}

/// A detail does not change what a failure is: facts that do not fit are a failed extraction,
/// and every other failure stays what it is.
pub proof fn details_do_not_change_failures(failure: WorkerAttemptFailure, r: WorkerFailure)
    requires
        call_ensures(WorkerAttemptFailure::legacy, (&failure,), r),
    ensures
        failure matches WorkerAttemptFailure::Failure(f) ==> r == f,
        failure matches WorkerAttemptFailure::Remote { code, .. } ==> r == WorkerFailure::Remote(
            code,
        ),
        failure is InvalidFacts ==> r == WorkerFailure::Remote(WorkerErrorCode::Extraction),
{
}

/// The detail of a failure names its stage and its error, in this order, and is kept whole
/// where it fits; otherwise as much of it is kept as fits.
pub proof fn details_are_kept_as_far_as_they_fit(stage: &str, error: &str, r: String)
    requires
        call_ensures(bounded_detail, (stage, error), r),
    ensures
        encode_utf8(r@).len() <= 512,
        r@.len() <= ("stage="@ + stage@ + " error="@ + error@).len(),
        forall|i: int|
            0 <= i < r@.len() ==> #[trigger] r@[i] == ("stage="@ + stage@ + " error="@ + error@)[i],
        encode_utf8("stage="@ + stage@ + " error="@ + error@).len() <= 512 ==> r@ == "stage="@
            + stage@ + " error="@ + error@,
{
    let full = "stage="@ + stage@ + " error="@ + error@;
    assert(r@ == full.take(r@.len() as int));
    if encode_utf8(full).len() <= 512 && r@.len() < full.len() {
        let n = r@.len() as int + 1;
        encode_concat(full.take(n), full.skip(n));
        assert(full.take(n) + full.skip(n) =~= full);
    }
    if r@.len() == full.len() {
        assert(r@ =~= full);
    }
}

/// A file of a language that is not in use is left out for that language, and any other that
/// is of none for its extension.
pub proof fn files_of_no_language_are_left_out_for_a_reason(
    c: FileClassification,
    r: OmissionReason,
)
    requires
        call_ensures(classification_omission, (c,), r),
    ensures
        c matches FileClassification::FeatureDisabled(language) ==> r
            == (OmissionReason::FeatureDisabled { language }),
        c == FileClassification::UnrecognizedExtension ==> r
            == OmissionReason::UnrecognizedExtension,
{
}

/// Nothing is limited, shown or allowed by default but what is told here.
pub proof fn defaults_are_cautious(r: GlobalOptions)
    requires
        call_ensures(<GlobalOptions as Default>::default, (), r),
    ensures
        r.tier == ResolverTier::Scope,
        r.root is None && r.min_confidence is None && !r.json,
        !r.include_hidden && !r.frozen && !r.allow_stale && !r.allow_partial && !r.no_cache,
        r.limits.max_files == 10_000,
        r.limits.max_file_bytes == 1024 * 1024,
        r.limits.max_total_bytes == 256 * 1024 * 1024,
        r.limits.max_depth == 32,
        r.limits.result_limit == 50,
        r.limits.timeout is None,
{
}

/// A failure says what it is about: its own text, and the path that it names.
pub proof fn failures_say_what_they_are_about(e: CliError, r: String)
    requires
        call_ensures(CliError::message, (&e,), r),
    ensures
        e matches CliError::Usage(text) ==> r@ == text@,
        e == CliError::NoMatch ==> r@ == "no matching result"@,
        e == CliError::Ambiguous ==> r@ == "selector is ambiguous"@,
        e matches CliError::Cache(text) ==> r@ == "cache failure: "@ + text@,
        e matches CliError::Index(text) ==> r@ == "index failure: "@ + text@,
        e matches CliError::Unsupported(text) ==> r@ == "unsupported: "@ + text@,
        e matches CliError::ProjectPath { path, reason } ==> r@ == "project path "@ + lossy_text(
            path@,
        ) + ": "@ + reason@,
        e matches CliError::ProjectSymlink { path } ==> r@ == "project path "@ + lossy_text(path@)
            + " is a symlink"@,
        e matches CliError::ProjectRelativePath { path, reason } ==> r@ == "project-relative path "@
            + lossy_text(path@) + ": "@ + reason@,
        e matches CliError::ProjectPathOutsideRoot { root, path } ==> r@ == "source path "@
            + lossy_text(path@) + " is outside project root "@ + lossy_text(root@),
        e == CliError::Timeout ==> r@ == "operation timed out"@,
        e == CliError::Cancelled ==> r@ == "operation cancelled"@,
        e == CliError::FrozenSnapshotMissing ==> r@ == "no frozen snapshot is available"@,
        e == CliError::PartialNotAllowed ==> r@
            == "result is partial and partial results are not allowed"@,
        e matches CliError::Fatal(text) ==> r@ == "fatal CLI failure: "@ + text@,
{
}

/// A transaction ends well only with a commit that went well, it is committed only after all
/// that it does went well, and one that failed on the way is rolled back and ends with the
/// failure that it had first.
pub proof fn transactions_are_whole_or_rolled_back(
    stage: TransactionStage,
    failure: Option<CacheError>,
    r: TransactionNext,
)
    requires
        call_ensures(next_stage, (stage, failure), r),
    ensures
        r == (TransactionNext::Ended { failure: None }) <==> stage == TransactionStage::Commit
            && failure is None,
        r == TransactionNext::Do(TransactionStage::Commit) <==> stage == TransactionStage::Operate
            && failure is None,
        r == TransactionNext::Do(TransactionStage::Operate) <==> stage == TransactionStage::Open
            && failure is None,
        (stage == TransactionStage::Operate || stage == TransactionStage::Commit) ==> (failure
            matches Some(e) ==> r == TransactionNext::Do(
            TransactionStage::RollBack { failure: e },
        )),
        stage == TransactionStage::Open ==> (failure matches Some(e) ==> r
            == (TransactionNext::Ended { failure: Some(e) })),
        stage matches TransactionStage::RollBack { failure: first } ==> r
            == (TransactionNext::Ended { failure: Some(first) }),
{
}

/// What is told of an omission names its cause, and the limit, the language or the failure that
/// it came from.
pub proof fn omissions_name_their_cause(reason: OmissionReason, tag: String, detail: String)
    requires
        call_ensures(OmissionReason::tag, (&reason,), tag),
        call_ensures(OmissionReason::detail, (&reason,), detail),
    ensures
        reason == OmissionReason::UnrecognizedExtension ==> tag@ == "unrecognized-extension"@,
        reason matches OmissionReason::FeatureDisabled { language } ==> tag@ == "feature-disabled:"@
            + language.tag(),
        reason == OmissionReason::SymlinkFile ==> tag@ == "symlink-file"@,
        reason == OmissionReason::SymlinkDirectory ==> tag@ == "symlink-directory"@,
        reason == OmissionReason::NotRegularFile ==> tag@ == "not-regular-file"@,
        reason matches OmissionReason::FileTooLarge { limit } ==> tag@ == "file-too-large"@
            && detail@ == "limit="@ + decimal(limit as nat),
        reason matches OmissionReason::TotalBytesLimit { limit } ==> tag@ == "total-bytes-limit"@
            && detail@ == "limit="@ + decimal(limit as nat),
        reason matches OmissionReason::FileCountLimit { limit } ==> tag@ == "file-count-limit"@
            && detail@ == "limit="@ + decimal(limit as nat),
        reason == OmissionReason::InvalidUtf8 ==> tag@ == "invalid-utf8"@,
        reason == OmissionReason::ChangedDuringRead ==> tag@ == "changed-during-read"@,
        reason matches OmissionReason::ReadError { kind } ==> tag@ == "read-error:"@
            + kind.spelling(),
        reason == OmissionReason::ExtractionError ==> tag@ == "extraction-error"@ && detail@
            == "isolated extraction failed"@,
        !(reason is FileTooLarge || reason is TotalBytesLimit || reason is FileCountLimit
            || reason is ExtractionError) ==> detail@.len() == 0,
{
}

/// A language is found again by its tag, and by nothing else.
pub proof fn languages_are_known_by_their_tags(tag: &str, r: Option<Language>)
    requires
        call_ensures(Language::from_tag, (tag,), r),
    ensures
        r == Some(Language::Rust) <==> tag@ == "rust"@,
        r == Some(Language::Python) <==> tag@ == "python"@,
        r == Some(Language::TypeScript) <==> tag@ == "typescript"@,
        r == Some(Language::JavaScript) <==> tag@ == "javascript"@,
        r == Some(Language::Go) <==> tag@ == "go"@,
        r == Some(Language::Sql) <==> tag@ == "sql"@,
{
    reveal_strlit("rust");
    reveal_strlit("python");
    reveal_strlit("typescript");
    reveal_strlit("javascript");
    reveal_strlit("go");
    reveal_strlit("sql");
    assert(Language::Rust.tag() == "rust"@ && Language::Python.tag() == "python"@);
    assert(Language::TypeScript.tag() == "typescript"@ && Language::JavaScript.tag()
        == "javascript"@);
    assert(Language::Go.tag() == "go"@ && Language::Sql.tag() == "sql"@);
    assert("rust"@.len() == 4 && "python"@.len() == 6 && "go"@.len() == 2 && "sql"@.len() == 3);
    assert("typescript"@.len() == 10 && "javascript"@.len() == 10);
    assert("typescript"@[0] == 't' && "javascript"@[0] == 'j');
}

} // verus!
