//! Indexed candidates as they are published and loaded.

use vstd::prelude::*;
use vstd::string::*;
use crate::cache::fingerprint::{
    blake3_of, input_preimage, CandidateId, CompatibilityFingerprint, InputCollector, InputView,
    LanguageFeatureFingerprint, PackageFingerprint, ProjectInputDigest,
};
use crate::cache::types::{CacheCompleteness, CacheOmission, ResolverCacheTier};
use crate::graph::{CodeGraph, FileFacts, FileSubgraph};
use crate::inventory::types::MtimeHint;

verus! {

/// Everything that must agree before cached facts can be reused, with its parts.
#[derive(Debug, Clone, Copy, PartialEq, Eq)]
pub struct CompatibilityRecord {
    pub id: CompatibilityFingerprint,
    pub language_fingerprint: LanguageFeatureFingerprint,
    pub package_fingerprint: PackageFingerprint,
    pub created_at_ns: u64,
}

/// One source of a candidate with its facts.
#[derive(Debug, Clone, PartialEq, Eq)]
pub struct CandidateFileRecord {
    pub path: String,
    pub language: String,
    pub content_hash: [u8; 32],
    pub size_bytes: u64,
    pub mtime: Option<MtimeHint>,
    pub package_assignment: String,
    pub facts: FileFacts,
    pub subgraph: Option<FileSubgraph>,
}

impl CandidateFileRecord {
    /// The source as the input digest sees it.
    pub open spec fn input(self) -> InputView {
        InputView {
            path: self.path@,
            language: self.language@,
            content_hash: self.content_hash@,
        }
    }
}

/// The sources of a candidate as the input digest sees them.
pub open spec fn file_inputs(files: Seq<CandidateFileRecord>) -> Seq<InputView> {
    files.map_values(|f: CandidateFileRecord| f.input())
}

/// The paths of the sources of a candidate.
pub open spec fn file_paths(files: Seq<CandidateFileRecord>) -> Seq<Seq<char>> {
    files.map_values(|f: CandidateFileRecord| f.path@)
}

/// A candidate ready for publication.
#[derive(Debug, Clone, PartialEq, Eq)]
pub struct CandidateSnapshot {
    pub candidate_id: CandidateId,
    pub compatibility: CompatibilityRecord,
    pub input_digest: ProjectInputDigest,
    pub completeness: CacheCompleteness,
    pub omissions: Vec<CacheOmission>,
    pub created_at_ns: u64,
    pub inventory_file_count: u64,
    pub inventory_total_bytes: u64,
    pub files: Vec<CandidateFileRecord>,
    pub tier_graphs: Vec<(ResolverCacheTier, CodeGraph)>,
}

/// A candidate read back from the cache.
#[derive(Debug, Clone, PartialEq, Eq)]
pub struct LoadedSnapshot {
    pub candidate_id: CandidateId,
    pub compatibility: CompatibilityRecord,
    pub input_digest: ProjectInputDigest,
    pub completeness: CacheCompleteness,
    pub omissions: Vec<CacheOmission>,
    pub created_at_ns: u64,
    pub inventory_file_count: u64,
    pub inventory_total_bytes: u64,
    pub files: Vec<CandidateFileRecord>,
    pub tier_graphs: Vec<(ResolverCacheTier, CodeGraph)>,
}

/// Some graph of the list is of the tier.
pub open spec fn has_tier(
    graphs: Seq<(ResolverCacheTier, CodeGraph)>,
    tier: ResolverCacheTier,
) -> bool {
    exists|i: int| 0 <= i < graphs.len() && (#[trigger] graphs[i]).0 == tier
}

/// Tells whether some graph of the list is of the tier.
pub fn contains_tier(
    graphs: &Vec<(ResolverCacheTier, CodeGraph)>,
    tier: ResolverCacheTier,
) -> (r: bool)
    ensures
        r == has_tier(graphs@, tier),
{
    let mut i: usize = 0;
    while i < graphs.len()
        invariant
            i <= graphs.len(),
            forall|j: int| 0 <= j < i ==> (#[trigger] graphs@[j]).0 != tier,
        decreases graphs.len() - i,
    {
        if graphs[i].0 == tier {
            return true;
        }
        i += 1;
    }
    false
}

/// The digest of the sources of a candidate.
pub fn digest_of_files(files: &Vec<CandidateFileRecord>) -> (r: ProjectInputDigest)
    ensures
        r.bytes@ == blake3_of(input_preimage(file_inputs(files@))),
{
    let mut collector = InputCollector::new();
    let ghost all = file_inputs(files@);
    let mut i: usize = 0;
    assert(all.take(0) =~= Seq::<InputView>::empty());
    while i < files.len()
        invariant
            i <= files.len(),
            all == file_inputs(files@),
            collector.collected() == input_preimage(all.take(i as int)),
        decreases files.len() - i,
    {
        let file = &files[i];
        collector.add_source(
            file.path.as_str(),
            file.language.as_str(),
            &file.content_hash,
            Ghost(all.take(i as int)),
        );
        assert(all.take(i as int + 1) =~= all.take(i as int).push(all[i as int]));
        i += 1;
    }
    assert(all.take(all.len() as int) =~= all);
    collector.digest()
}

} // verus!
