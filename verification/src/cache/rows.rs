//! Candidates as rows of the cache database: what is checked before one is written,
//! and how its values are stored.

use vstd::prelude::*;
use vstd::string::*;
use vstd::utf8::*;
use crate::cache::codec::{
    encode_file_facts, encode_graph, encode_subgraph, framed, CACHE_BLOB_MAX_BYTES,
    CODE_GRAPH_SCHEMA_VERSION, FILE_FACTS_SCHEMA_VERSION, FILE_SUBGRAPH_SCHEMA_VERSION,
};
use crate::cache::fingerprint::{
    blake3_of, candidate_preimage, compatibility_preimage, input_preimage, omission_views,
    CandidateId, CompatibilityFingerprint,
};
use crate::cache::snapshot::{
    contains_tier, digest_of_files, file_inputs, has_tier, CandidateFileRecord, CandidateSnapshot,
};
use crate::cache::types::{CacheCompleteness, CacheError, CacheOmission, ResolverCacheTier};
use crate::deadline::Deadline;
use crate::graph::CodeGraph;
use crate::inventory::types::MtimeHint;
use crate::ordering::{key_less, key_lt, key_order_is_transitive};
use crate::package_assignment::types::{is_canonical_identity, SourcePackageAssignment};
use crate::text::{chars_of, push_text_key, same_text, text_key};

verus! {

/// Nanoseconds of one second.
pub const NANOSECONDS_PER_SECOND: u32 = 1_000_000_000;

/// The keys ascend, and none occurs twice.
pub open spec fn keys_ascend(keys: Seq<Seq<u64>>) -> bool {
    forall|i: int, j: int|
        0 <= i < j < keys.len() ==> key_lt(#[trigger] keys[i], #[trigger] keys[j])
}

/// The keys as sequences.
pub open spec fn key_views(keys: Seq<Vec<u64>>) -> Seq<Seq<u64>> {
    keys.map_values(|k: Vec<u64>| k@)
}

/// Tells whether the keys ascend with none of them twice.
pub fn strictly_sorted(keys: &Vec<Vec<u64>>) -> (r: bool)
    ensures
        r == keys_ascend(key_views(keys@)),
{
    let ghost all = key_views(keys@);
    if keys.len() == 0 {
        return true;
    }
    let mut i: usize = 1;
    while i < keys.len()
        invariant
            1 <= i <= keys.len(),
            all == key_views(keys@),
            forall|a: int, b: int|
                0 <= a < b < i ==> key_lt(#[trigger] all[a], #[trigger] all[b]),
        decreases keys.len() - i,
    {
        assert(all[i as int] == keys@[i as int]@ && all[i - 1] == keys@[i - 1]@);
        if !key_less(&keys[i - 1], &keys[i]) {
            return false;
        }
        proof {
            assert forall|a: int, b: int| 0 <= a < b < i + 1 implies key_lt(
                #[trigger] all[a],
                #[trigger] all[b],
            ) by {
                if b == i && a < i - 1 {
                    key_order_is_transitive(all[a], all[i - 1], all[b]);
                }
            }
        }
        i += 1;
    }
    true
}

/// Reads a stored digest; one of any other length is corruption.
pub fn fixed_32(value: &[u8]) -> (r: Result<[u8; 32], CacheError>)
    ensures
        match r {
            Ok(bytes) => bytes@ == value@,
            Err(e) => e == CacheError::Corrupt && value@.len() != 32,
        },
{
    if value.len() != 32 {
        return Err(CacheError::Corrupt);
    }
    let mut bytes: [u8; 32] = [0; 32];
    let mut i: usize = 0;
    while i < 32
        invariant
            i <= 32,
            value@.len() == 32,
            forall|j: int| 0 <= j < i ==> bytes@[j] == value@[j],
        decreases 32 - i,
    {
        bytes[i] = value[i];
        i += 1;
    }
    assert(bytes@ =~= value@);
    Ok(bytes)
}

/// Reads a stored identity of a candidate.
pub fn fingerprint_from_blob(value: &[u8]) -> (r: Result<CandidateId, CacheError>)
    ensures
        match r {
            Ok(id) => id.bytes@ == value@,
            Err(e) => e == CacheError::Corrupt && value@.len() != 32,
        },
{
    match fixed_32(value) {
        Ok(bytes) => Ok(CandidateId { bytes }),
        Err(e) => Err(e),
    }
}

/// Reads a stored count; a negative one is corruption.
pub fn nonnegative(value: i64) -> (r: Result<u64, CacheError>)
    ensures
        match r {
            Ok(n) => n == value,
            Err(e) => e == CacheError::Corrupt && value < 0,
        },
{
    if value < 0 {
        Err(CacheError::Corrupt)
    } else {
        Ok(value as u64)
    }
}

/// A modification time that can be stored.
pub open spec fn mtime_storable(mtime: Option<MtimeHint>) -> bool {
    mtime matches Some(m) ==> m.nanoseconds < NANOSECONDS_PER_SECOND
}

/// The two numbers of a stored modification time.
pub open spec fn mtime_columns(mtime: Option<MtimeHint>) -> (Option<i64>, Option<i64>) {
    match mtime {
        None => (None, None),
        Some(m) => (Some(m.seconds_since_unix_epoch), Some(m.nanoseconds as i64)),
    }
}

/// The two numbers to store for a modification time.
pub fn encode_mtime(mtime: Option<MtimeHint>) -> (r: Result<
    (Option<i64>, Option<i64>),
    CacheError,
>)
    ensures
        match r {
            Ok(columns) => mtime_storable(mtime) && columns == mtime_columns(mtime),
            Err(e) => e == CacheError::InvalidCandidate && !mtime_storable(mtime),
        },
{
    match mtime {
        None => Ok((None, None)),
        Some(value) => if value.nanoseconds < NANOSECONDS_PER_SECOND {
            Ok((Some(value.seconds_since_unix_epoch), Some(value.nanoseconds as i64)))
        } else {
            Err(CacheError::InvalidCandidate)
        },
    }
}

/// The modification time that two stored numbers hold, if they hold one or are both
/// missing.
pub open spec fn mtime_of_columns(seconds: Option<i64>, nanoseconds: Option<i64>) -> Result<
    Option<MtimeHint>,
    CacheError,
> {
    match (seconds, nanoseconds) {
        (None, None) => Ok(None),
        (Some(s), Some(n)) => if 0 <= n < NANOSECONDS_PER_SECOND {
            Ok(Some(MtimeHint { seconds_since_unix_epoch: s, nanoseconds: n as u32 }))
        } else {
            Err(CacheError::Corrupt)
        },
        _ => Err(CacheError::Corrupt),
    }
}

/// Reads a stored modification time.
pub fn decode_mtime(seconds: Option<i64>, nanoseconds: Option<i64>) -> (r: Result<
    Option<MtimeHint>,
    CacheError,
>)
    ensures
        r == mtime_of_columns(seconds, nanoseconds),
{
    match (seconds, nanoseconds) {
        (None, None) => Ok(None),
        (Some(s), Some(n)) => if 0 <= n && n < NANOSECONDS_PER_SECOND as i64 {
            Ok(Some(MtimeHint { seconds_since_unix_epoch: s, nanoseconds: n as u32 }))
        } else {
            Err(CacheError::Corrupt)
        },
        _ => Err(CacheError::Corrupt),
    }
}

/// A modification time that was stored is read back as it was.
pub proof fn stored_mtimes_read_back(mtime: Option<MtimeHint>)
    requires
        mtime_storable(mtime),
    ensures
        mtime_of_columns(mtime_columns(mtime).0, mtime_columns(mtime).1) == Ok::<
            Option<MtimeHint>,
            CacheError,
        >(mtime),
{
}

/// Fails once the time is used up.
pub fn ensure_time(deadline: &Deadline) -> (r: Result<(), CacheError>)
    ensures
        match r {
            Ok(()) => deadline.may_have_time(),
            Err(e) => e == CacheError::Timeout && deadline.may_be_used_up(),
        },
{
    match deadline.remaining() {
        Some(left) => if left.is_zero() {
            Err(CacheError::Timeout)
        } else {
            Ok(())
        },
        None => Ok(()),
    }
}

/// The JSON of the facts of each file and of each graph of a candidate, in the
/// candidate's order.
#[derive(Debug, Clone, PartialEq, Eq)]
pub struct CandidatePayloads {
    pub facts: Vec<Vec<u8>>,
    pub graphs: Vec<Vec<u8>>,
}

impl CandidatePayloads {
    /// There is one for each file and for each graph.
    pub open spec fn fit(self, candidate: CandidateSnapshot) -> bool {
        self.facts@.len() == candidate.files@.len() && self.graphs@.len()
            == candidate.tier_graphs@.len()
    }
}

/// The row of one file of a candidate.
#[derive(Debug, Clone, PartialEq, Eq)]
pub struct PreparedFile {
    pub path: String,
    pub language: String,
    pub content_hash: [u8; 32],
    pub size_bytes: i64,
    pub mtime_seconds: Option<i64>,
    pub mtime_nanoseconds: Option<i64>,
    pub package_assignment: String,
    pub facts: Vec<u8>,
    pub subgraph: Option<Vec<u8>>,
}

/// The row of one graph of a candidate.
#[derive(Debug, Clone, PartialEq, Eq)]
pub struct PreparedGraph {
    pub tier: ResolverCacheTier,
    pub blob: Vec<u8>,
}

/// The rows of a candidate.
#[derive(Debug, Clone, PartialEq, Eq)]
pub struct PreparedCandidate {
    pub candidate_id: [u8; 32],
    pub compatibility_id: [u8; 32],
    pub language_fingerprint: [u8; 32],
    pub package_fingerprint: [u8; 32],
    pub input_digest: [u8; 32],
    pub completeness: i64,
    pub compatibility_created_at: i64,
    pub created_at: i64,
    pub inventory_file_count: i64,
    pub inventory_total_bytes: i64,
    pub omissions: Vec<CacheOmission>,
    pub files: Vec<PreparedFile>,
    pub graphs: Vec<PreparedGraph>,
}

/// The sizes of the first `n` files together.
pub open spec fn total_size(files: Seq<CandidateFileRecord>, n: int) -> int
    decreases n,
{
    if n <= 0 {
        0
    } else {
        total_size(files, n - 1) + files[n - 1].size_bytes
    }
}

/// The keys that order files: their paths.
pub open spec fn path_keys(files: Seq<CandidateFileRecord>) -> Seq<Seq<u64>> {
    files.map_values(|f: CandidateFileRecord| text_key(f.path@))
}

/// The keys that order graphs: their tiers.
pub open spec fn tier_keys(graphs: Seq<(ResolverCacheTier, CodeGraph)>) -> Seq<Seq<u64>> {
    graphs.map_values(|g: (ResolverCacheTier, CodeGraph)| seq![tier_rank(g.0) as u64])
}

/// The place of a tier among the tiers.
pub open spec fn tier_rank(tier: ResolverCacheTier) -> nat {
    match tier {
        ResolverCacheTier::Name => 0,
        ResolverCacheTier::Scope => 1,
        ResolverCacheTier::Dense => 2,
    }
}

/// The keys that order omissions: their paths and reasons.
pub open spec fn omission_keys(omissions: Seq<CacheOmission>) -> Seq<Seq<u64>> {
    omissions.map_values(|o: CacheOmission| text_key(o.path@) + text_key(o.reason@))
}

/// The texts of an omission can be stored.
pub open spec fn omission_storable(o: CacheOmission) -> bool {
    o.path@.len() > 0 && !o.path@.contains('\\') && o.reason@.len() > 0
}

/// The omissions are in order, can be stored, and stand only in a partial candidate.
pub open spec fn omissions_consistent(
    omissions: Seq<CacheOmission>,
    completeness: CacheCompleteness,
) -> bool {
    &&& keys_ascend(omission_keys(omissions))
    &&& forall|i: int| 0 <= i < omissions.len() ==> omission_storable(#[trigger] omissions[i])
    &&& completeness == CacheCompleteness::Complete ==> omissions.len() == 0
}

/// Every file has its subgraph.
pub open spec fn all_subgraphs(files: Seq<CandidateFileRecord>) -> bool {
    forall|i: int| 0 <= i < files.len() ==> (#[trigger] files[i]).subgraph is Some
}

/// The identities, counts and orders of a candidate agree with what it holds.
pub open spec fn candidate_consistent(c: CandidateSnapshot) -> bool {
    &&& c.compatibility.id.bytes@ == blake3_of(
        compatibility_preimage(
            c.compatibility.language_fingerprint.bytes@,
            c.compatibility.package_fingerprint.bytes@,
        ),
    )
    &&& c.inventory_file_count == c.files@.len()
    &&& c.inventory_total_bytes == total_size(c.files@, c.files@.len() as int)
    &&& c.input_digest.bytes@ == blake3_of(input_preimage(file_inputs(c.files@)))
    &&& c.candidate_id.bytes@ == blake3_of(
        candidate_preimage(
            c.compatibility.id.bytes@,
            c.input_digest.bytes@,
            c.completeness,
            omission_views(c.omissions@),
        ),
    )
    &&& keys_ascend(path_keys(c.files@))
    &&& keys_ascend(tier_keys(c.tier_graphs@))
    &&& omissions_consistent(c.omissions@, c.completeness)
    &&& has_tier(c.tier_graphs@, ResolverCacheTier::Scope) ==> all_subgraphs(c.files@)
}

/// The texts of a file record can be stored and agree with its facts.
pub open spec fn record_consistent(f: CandidateFileRecord) -> bool {
    &&& f.path@.len() > 0
    &&& !f.path@.contains('\\')
    &&& f.language@.len() > 0
    &&& is_canonical_identity(f.package_assignment@, f.path@)
    &&& f.facts.file@ == f.path@
    &&& f.facts.lang@ == f.language@
}

/// The blob of the facts of a file.
pub open spec fn facts_blob(payload: Seq<u8>) -> Seq<u8> {
    framed("file-facts"@, FILE_FACTS_SCHEMA_VERSION, payload)
}

/// The blob of the subgraph of a file.
pub open spec fn subgraph_blob(payload: Seq<u8>) -> Seq<u8> {
    framed("file-subgraph"@, FILE_SUBGRAPH_SCHEMA_VERSION, payload)
}

/// The blob of a graph.
pub open spec fn graph_blob(payload: Seq<u8>) -> Seq<u8> {
    framed("code-graph"@, CODE_GRAPH_SCHEMA_VERSION, payload)
}

/// Why a file cannot be stored, if it cannot.
pub open spec fn file_fault(f: CandidateFileRecord, facts: Seq<u8>) -> Option<CacheError> {
    if !record_consistent(f) || f.size_bytes > i64::MAX || !mtime_storable(f.mtime) {
        Some(CacheError::InvalidCandidate)
    } else if facts_blob(facts).len() > CACHE_BLOB_MAX_BYTES {
        Some(CacheError::Oversize)
    } else {
        match f.subgraph {
            Some(subgraph) => if subgraph.owner@ != f.path@ {
                Some(CacheError::InvalidSubgraph)
            } else if subgraph_blob(subgraph.encoded@).len() > CACHE_BLOB_MAX_BYTES {
                Some(CacheError::Oversize)
            } else {
                None
            },
            None => None,
        }
    }
}

/// Why one of the first `n` files cannot be stored, the first such file first.
pub open spec fn files_fault(
    files: Seq<CandidateFileRecord>,
    facts: Seq<Vec<u8>>,
    n: int,
) -> Option<CacheError>
    decreases n,
{
    if n <= 0 {
        None
    } else {
        match files_fault(files, facts, n - 1) {
            Some(e) => Some(e),
            None => file_fault(files[n - 1], facts[n - 1]@),
        }
    }
}

/// Some graph is too large to be stored.
pub open spec fn graph_oversize(graphs: Seq<Vec<u8>>) -> bool {
    exists|i: int|
        0 <= i < graphs.len() && graph_blob(#[trigger] graphs[i]@).len() > CACHE_BLOB_MAX_BYTES
}

/// The numbers of a candidate can be stored.
pub open spec fn numbers_storable(c: CandidateSnapshot) -> bool {
    &&& c.compatibility.created_at_ns <= i64::MAX
    &&& c.created_at_ns <= i64::MAX
    &&& c.inventory_file_count <= i64::MAX
    &&& c.inventory_total_bytes <= i64::MAX
}

/// Why a candidate cannot be stored, if it cannot.
pub open spec fn candidate_fault(c: CandidateSnapshot, payloads: CandidatePayloads) -> Option<
    CacheError,
> {
    if !candidate_consistent(c) {
        Some(CacheError::InvalidCandidate)
    } else {
        match files_fault(c.files@, payloads.facts@, c.files@.len() as int) {
            Some(e) => Some(e),
            None => if graph_oversize(payloads.graphs@) {
                Some(CacheError::Oversize)
            } else if !numbers_storable(c) {
                Some(CacheError::InvalidCandidate)
            } else {
                None
            },
        }
    }
}

/// The row holds the file.
pub open spec fn file_stored(row: PreparedFile, f: CandidateFileRecord, facts: Seq<u8>) -> bool {
    &&& row.path@ == f.path@
    &&& row.language@ == f.language@
    &&& row.content_hash@ == f.content_hash@
    &&& row.size_bytes == f.size_bytes
    &&& (row.mtime_seconds, row.mtime_nanoseconds) == mtime_columns(f.mtime)
    &&& row.package_assignment@ == f.package_assignment@
    &&& row.facts@ == facts_blob(facts)
    &&& match f.subgraph {
        Some(subgraph) => row.subgraph is Some && row.subgraph->0@ == subgraph_blob(
            subgraph.encoded@,
        ),
        None => row.subgraph is None,
    }
}

/// The row holds the graph.
pub open spec fn graph_stored(row: PreparedGraph, tier: ResolverCacheTier, payload: Seq<u8>) -> bool {
    row.tier == tier && row.blob@ == graph_blob(payload)
}

/// The rows hold the candidate.
pub open spec fn candidate_stored(
    p: PreparedCandidate,
    c: CandidateSnapshot,
    payloads: CandidatePayloads,
) -> bool {
    &&& p.candidate_id@ == c.candidate_id.bytes@
    &&& p.compatibility_id@ == c.compatibility.id.bytes@
    &&& p.language_fingerprint@ == c.compatibility.language_fingerprint.bytes@
    &&& p.package_fingerprint@ == c.compatibility.package_fingerprint.bytes@
    &&& p.input_digest@ == c.input_digest.bytes@
    &&& p.completeness == c.completeness.sql()
    &&& p.compatibility_created_at == c.compatibility.created_at_ns
    &&& p.created_at == c.created_at_ns
    &&& p.inventory_file_count == c.inventory_file_count
    &&& p.inventory_total_bytes == c.inventory_total_bytes
    &&& omission_views(p.omissions@) == omission_views(c.omissions@)
    &&& p.files@.len() == c.files@.len()
    &&& forall|i: int|
        0 <= i < p.files@.len() ==> file_stored(
            #[trigger] p.files@[i],
            c.files@[i],
            payloads.facts@[i]@,
        )
    &&& p.graphs@.len() == c.tier_graphs@.len()
    &&& forall|i: int|
        0 <= i < p.graphs@.len() ==> graph_stored(
            #[trigger] p.graphs@[i],
            c.tier_graphs@[i].0,
            payloads.graphs@[i]@,
        )
}

/// Adds the sizes of all files, unless they overflow.
pub fn checked_total(files: &Vec<CandidateFileRecord>) -> (r: Option<u64>)
    ensures
        match r {
            Some(total) => total == total_size(files@, files@.len() as int),
            None => total_size(files@, files@.len() as int) > u64::MAX,
        },
{
    let mut total: u64 = 0;
    let mut i: usize = 0;
    while i < files.len()
        invariant
            i <= files.len(),
            total == total_size(files@, i as int),
        decreases files.len() - i,
    {
        let size: u64 = files[i].size_bytes;
        if size > u64::MAX - total {
            proof {
                lemma_total_grows(files@, i + 1, files@.len() as int);
            }
            return None;
        }
        total = total + size;
        i += 1;
    }
    Some(total)
}

proof fn lemma_total_grows(files: Seq<CandidateFileRecord>, m: int, n: int)
    requires
        m <= n,
    ensures
        total_size(files, m) <= total_size(files, n),
    decreases n - m,
{
    if m < n {
        lemma_total_grows(files, m, n - 1);
    }
}

/// Tells whether the paths of the files ascend.
pub fn paths_sorted(files: &Vec<CandidateFileRecord>) -> (r: bool)
    ensures
        r == keys_ascend(path_keys(files@)),
{
    let mut keys: Vec<Vec<u64>> = Vec::new();
    let mut i: usize = 0;
    while i < files.len()
        invariant
            i <= files.len(),
            keys@.len() == i,
            forall|j: int| 0 <= j < i ==> (#[trigger] keys@[j])@ == text_key(files@[j].path@),
        decreases files.len() - i,
    {
        let mut key: Vec<u64> = Vec::new();
        push_text_key(&mut key, files[i].path.as_str());
        assert(key@ =~= text_key(files@[i as int].path@));
        keys.push(key);
        i += 1;
    }
    assert(key_views(keys@) =~= path_keys(files@));
    strictly_sorted(&keys)
}

/// Tells whether the tiers of the graphs ascend.
pub fn tiers_sorted(graphs: &Vec<(ResolverCacheTier, CodeGraph)>) -> (r: bool)
    ensures
        r == keys_ascend(tier_keys(graphs@)),
{
    let mut keys: Vec<Vec<u64>> = Vec::new();
    let mut i: usize = 0;
    while i < graphs.len()
        invariant
            i <= graphs.len(),
            keys@.len() == i,
            forall|j: int|
                0 <= j < i ==> (#[trigger] keys@[j])@ == seq![tier_rank(graphs@[j].0) as u64],
        decreases graphs.len() - i,
    {
        let rank: u64 = match graphs[i].0 {
            ResolverCacheTier::Name => 0,
            ResolverCacheTier::Scope => 1,
            ResolverCacheTier::Dense => 2,
        };
        let mut key: Vec<u64> = Vec::new();
        key.push(rank);
        assert(key@ =~= seq![tier_rank(graphs@[i as int].0) as u64]);
        keys.push(key);
        i += 1;
    }
    assert(key_views(keys@) =~= tier_keys(graphs@));
    strictly_sorted(&keys)
}

/// Tells whether the paths and reasons of the omissions ascend.
pub fn omissions_sorted(omissions: &Vec<CacheOmission>) -> (r: bool)
    ensures
        r == keys_ascend(omission_keys(omissions@)),
{
    let mut keys: Vec<Vec<u64>> = Vec::new();
    let mut i: usize = 0;
    while i < omissions.len()
        invariant
            i <= omissions.len(),
            keys@.len() == i,
            forall|j: int|
                0 <= j < i ==> (#[trigger] keys@[j])@ == text_key(omissions@[j].path@) + text_key(
                    omissions@[j].reason@,
                ),
        decreases omissions.len() - i,
    {
        let mut key: Vec<u64> = Vec::new();
        push_text_key(&mut key, omissions[i].path.as_str());
        push_text_key(&mut key, omissions[i].reason.as_str());
        assert(key@ =~= text_key(omissions@[i as int].path@) + text_key(
            omissions@[i as int].reason@,
        ));
        keys.push(key);
        i += 1;
    }
    assert(key_views(keys@) =~= omission_keys(omissions@));
    strictly_sorted(&keys)
}

/// Tells whether the character occurs in the text.
pub fn contains_char(s: &str, c: char) -> (r: bool)
    ensures
        r == s@.contains(c),
{
    let chars = chars_of(s);
    let mut i: usize = 0;
    while i < chars.len()
        invariant
            i <= chars.len(),
            chars@ == s@,
            forall|j: int| 0 <= j < i ==> s@[j] != c,
        decreases chars.len() - i,
    {
        if chars[i] == c {
            return true;
        }
        i += 1;
    }
    false
}

fn omissions_ok(omissions: &Vec<CacheOmission>, completeness: CacheCompleteness) -> (r: bool)
    ensures
        r == omissions_consistent(omissions@, completeness),
{
    if !omissions_sorted(omissions) {
        return false;
    }
    let mut i: usize = 0;
    while i < omissions.len()
        invariant
            i <= omissions.len(),
            forall|j: int| 0 <= j < i ==> omission_storable(#[trigger] omissions@[j]),
        decreases omissions.len() - i,
    {
        let o = &omissions[i];
        if o.path.as_str().is_empty() || contains_char(o.path.as_str(), '\\')
            || o.reason.as_str().is_empty() {
            assert(!omission_storable(omissions@[i as int]));
            return false;
        }
        i += 1;
    }
    !(completeness == CacheCompleteness::Complete && omissions.len() > 0)
}

/// Tells whether every file has its subgraph.
pub fn has_all_subgraphs(files: &Vec<CandidateFileRecord>) -> (r: bool)
    ensures
        r == all_subgraphs(files@),
{
    let mut i: usize = 0;
    while i < files.len()
        invariant
            i <= files.len(),
            forall|j: int| 0 <= j < i ==> (#[trigger] files@[j]).subgraph is Some,
        decreases files.len() - i,
    {
        if files[i].subgraph.is_none() {
            return false;
        }
        i += 1;
    }
    true
}

fn is_consistent(c: &CandidateSnapshot) -> (r: bool)
    ensures
        r == candidate_consistent(*c),
{
    let computed = CompatibilityFingerprint::new(
        c.compatibility.language_fingerprint,
        c.compatibility.package_fingerprint,
    );
    if !c.compatibility.id.same(&computed) {
        return false;
    }
    if c.inventory_file_count != c.files.len() as u64 {
        return false;
    }
    match checked_total(&c.files) {
        Some(total) => if c.inventory_total_bytes != total {
            return false;
        },
        None => {
            return false;
        },
    }
    if !c.input_digest.same(&digest_of_files(&c.files)) {
        return false;
    }
    let id = CandidateId::new(c.compatibility.id, c.input_digest, c.completeness, &c.omissions);
    if !c.candidate_id.same(&id) {
        return false;
    }
    if !paths_sorted(&c.files) || !tiers_sorted(&c.tier_graphs) || !omissions_ok(
        &c.omissions,
        c.completeness,
    ) {
        return false;
    }
    !contains_tier(&c.tier_graphs, ResolverCacheTier::Scope) || has_all_subgraphs(&c.files)
}

/// The row of one file.
fn prepare_file(f: &CandidateFileRecord, payload: &[u8]) -> (r: Result<PreparedFile, CacheError>)
    ensures
        match r {
            Ok(row) => file_fault(*f, payload@) is None && file_stored(row, *f, payload@),
            Err(e) => file_fault(*f, payload@) == Some(e),
        },
{
    if f.path.as_str().is_empty() || contains_char(f.path.as_str(), '\\')
        || f.language.as_str().is_empty()
        || !SourcePackageAssignment::is_canonical_identity_for_path(
        f.package_assignment.as_str(),
        f.path.as_str(),
    ) || !same_text(f.facts.file.as_str(), f.path.as_str()) || !same_text(
        f.facts.lang.as_str(),
        f.language.as_str(),
    ) {
        return Err(CacheError::InvalidCandidate);
    }
    if f.size_bytes > i64::MAX as u64 {
        return Err(CacheError::InvalidCandidate);
    }
    let (mtime_seconds, mtime_nanoseconds) = match encode_mtime(f.mtime) {
        Ok(columns) => columns,
        Err(e) => {
            return Err(e);
        },
    };
    let facts = match encode_file_facts(payload) {
        Ok(blob) => blob,
        Err(e) => {
            return Err(e);
        },
    };
    let subgraph: Option<Vec<u8>> = match &f.subgraph {
        Some(subgraph) => {
            if !same_text(subgraph.owner.as_str(), f.path.as_str()) {
                return Err(CacheError::InvalidSubgraph);
            }
            match encode_subgraph(subgraph.encoded.as_slice()) {
                Ok(blob) => Some(blob),
                Err(e) => {
                    return Err(e);
                },
            }
        },
        None => None,
    };
    Ok(
        PreparedFile {
            path: f.path.clone(),
            language: f.language.clone(),
            content_hash: f.content_hash,
            size_bytes: f.size_bytes as i64,
            mtime_seconds,
            mtime_nanoseconds,
            package_assignment: f.package_assignment.clone(),
            facts,
            subgraph,
        },
    )
}

/// Copies omissions.
pub fn copied_omissions(omissions: &Vec<CacheOmission>) -> (r: Vec<CacheOmission>)
    ensures
        omission_views(r@) == omission_views(omissions@),
{
    let mut r: Vec<CacheOmission> = Vec::new();
    let mut i: usize = 0;
    while i < omissions.len()
        invariant
            i <= omissions.len(),
            r@.len() == i,
            forall|j: int| 0 <= j < i ==> (#[trigger] r@[j])@ == omissions@[j]@,
        decreases omissions.len() - i,
    {
        let o = &omissions[i];
        r.push(
            CacheOmission {
                path: o.path.clone(),
                reason: o.reason.clone(),
                detail: o.detail.clone(),
            },
        );
        i += 1;
    }
    assert(omission_views(r@) =~= omission_views(omissions@));
    r
}

pub(crate) proof fn lemma_files_fault_stays(
    files: Seq<CandidateFileRecord>,
    facts: Seq<Vec<u8>>,
    m: int,
    n: int,
)
    requires
        m <= n,
        files_fault(files, facts, m) is Some,
    ensures
        files_fault(files, facts, n) == files_fault(files, facts, m),
    decreases n - m,
{
    if m < n {
        lemma_files_fault_stays(files, facts, m, n - 1);
    }
}

impl PreparedCandidate {
    /// Checks a candidate and turns it into rows. Only the time can make it fail
    /// where the candidate itself does not.
    pub fn new(
        candidate: &CandidateSnapshot,
        payloads: &CandidatePayloads,
        deadline: &Deadline,
    ) -> (r: Result<Self, CacheError>)
        requires
            payloads.fit(*candidate),
        ensures
            match r {
                Ok(p) => candidate_fault(*candidate, *payloads) is None && candidate_stored(
                    p,
                    *candidate,
                    *payloads,
                ),
                Err(e) => (e == CacheError::Timeout && deadline.may_be_used_up()) || candidate_fault(
                    *candidate,
                    *payloads,
                ) == Some(e),
            },
            deadline.heeds_clock(r == Err::<Self, CacheError>(CacheError::Timeout)),
    {
        ensure_time(deadline)?;
        if !is_consistent(candidate) {
            return Err(CacheError::InvalidCandidate);
        }
        let mut files: Vec<PreparedFile> = Vec::new();
        let mut i: usize = 0;
        while i < candidate.files.len()
            invariant
                i <= candidate.files.len(),
                payloads.fit(*candidate),
                candidate_consistent(*candidate),
                files@.len() == i,
                files_fault(candidate.files@, payloads.facts@, i as int) is None,
                forall|j: int|
                    0 <= j < i ==> file_stored(
                        #[trigger] files@[j],
                        candidate.files@[j],
                        payloads.facts@[j]@,
                    ),
            decreases candidate.files.len() - i,
        {
            ensure_time(deadline)?;
            match prepare_file(&candidate.files[i], payloads.facts[i].as_slice()) {
                Ok(row) => files.push(row),
                Err(e) => {
                    proof {
                        assert(files_fault(candidate.files@, payloads.facts@, i + 1) == Some(e));
                        lemma_files_fault_stays(
                            candidate.files@,
                            payloads.facts@,
                            i + 1,
                            candidate.files@.len() as int,
                        );
                    }
                    return Err(e);
                },
            }
            i += 1;
        }
        let mut graphs: Vec<PreparedGraph> = Vec::new();
        let mut k: usize = 0;
        while k < candidate.tier_graphs.len()
            invariant
                k <= candidate.tier_graphs.len(),
                payloads.fit(*candidate),
                candidate_consistent(*candidate),
                files_fault(
                    candidate.files@,
                    payloads.facts@,
                    candidate.files@.len() as int,
                ) is None,
                graphs@.len() == k,
                forall|j: int|
                    0 <= j < k ==> graph_blob((#[trigger] payloads.graphs@[j])@).len()
                        <= CACHE_BLOB_MAX_BYTES,
                forall|j: int|
                    0 <= j < k ==> graph_stored(
                        #[trigger] graphs@[j],
                        candidate.tier_graphs@[j].0,
                        payloads.graphs@[j]@,
                    ),
            decreases candidate.tier_graphs.len() - k,
        {
            ensure_time(deadline)?;
            match encode_graph(payloads.graphs[k].as_slice()) {
                Ok(blob) => graphs.push(PreparedGraph { tier: candidate.tier_graphs[k].0, blob }),
                Err(e) => {
                    assert(graph_blob(payloads.graphs@[k as int]@).len() > CACHE_BLOB_MAX_BYTES);
                    return Err(e);
                },
            }
            k += 1;
        }
        assert(!graph_oversize(payloads.graphs@));
        let largest: u64 = i64::MAX as u64;
        if candidate.compatibility.created_at_ns > largest || candidate.created_at_ns > largest
            || candidate.inventory_file_count > largest || candidate.inventory_total_bytes
            > largest {
            return Err(CacheError::InvalidCandidate);
        }
        Ok(
            PreparedCandidate {
                candidate_id: candidate.candidate_id.bytes,
                compatibility_id: candidate.compatibility.id.bytes,
                language_fingerprint: candidate.compatibility.language_fingerprint.bytes,
                package_fingerprint: candidate.compatibility.package_fingerprint.bytes,
                input_digest: candidate.input_digest.bytes,
                completeness: candidate.completeness.as_sql(),
                compatibility_created_at: candidate.compatibility.created_at_ns as i64,
                created_at: candidate.created_at_ns as i64,
                inventory_file_count: candidate.inventory_file_count as i64,
                inventory_total_bytes: candidate.inventory_total_bytes as i64,
                omissions: copied_omissions(&candidate.omissions),
                files,
                graphs,
            },
        )
    }
}

} // verus!
