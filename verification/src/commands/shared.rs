//! What the query commands share: their context, the conversion into owned output and
//! the envelope.

use vstd::prelude::*;
use vstd::string::*;
use vstd::utf8::*;
use crate::cache::snapshot::CandidateFileRecord;
use crate::deadline::{heeds, is_interruption, Cancellation, Deadline};
use crate::execution::types::LoadedGraph;
use crate::graph::{FileFacts, IdView, Symbol, SymbolId, SymbolView};
use crate::error::CliError;
use crate::project::path::{joined, names, rejection, ProjectPath};
use crate::query::index::{symbols_seen, GraphRead};
use crate::result::{
    status_of, success_status, symbol_shown, OutputEnvelope, SelectorOutput, SymbolOutput,
    SymbolOutputView, OUTPUT_SCHEMA_VERSION,
};
use crate::text_map::TextMap;

verus! {

/// What a query command works with.
pub struct QueryCommandContext<'a, G: GraphRead, C: Cancellation> {
    pub loaded: &'a LoadedGraph,
    pub index: &'a G,
    pub deadline: &'a Deadline,
    pub cancellation: &'a C,
    pub max_file_bytes: usize,
    /// The digests of the indexed sources by their paths.
    pub candidate_hashes: TextMap<[u8; 32]>,
    /// The facts of the one file that a query for raw references asks for.
    pub reference_facts: Option<FileFacts>,
}

/// The digests of the first `n` files by their paths; the last file of a path counts.
pub open spec fn hashes_of(files: Seq<CandidateFileRecord>, n: nat) -> Map<Seq<char>, [u8; 32]>
    decreases n,
{
    if n == 0 {
        Map::empty()
    } else {
        hashes_of(files, (n - 1) as nat).insert(files[n - 1].path@, files[n - 1].content_hash)
    }
}

impl<'a, G: GraphRead, C: Cancellation> QueryCommandContext<'a, G, C> {
    /// The failure is an interruption that can come.
    pub open spec fn interrupted_by(self, e: CliError) -> bool {
        is_interruption(e, *self.deadline, self.cancellation)
    }

    /// The deadline and the source of cancellation are heeded.
    pub open spec fn heeds(self, failure: Option<CliError>) -> bool {
        heeds(*self.deadline, self.cancellation, failure)
    }

    /// A context over a snapshot whose files are in memory.
    pub fn new(
        loaded: &'a LoadedGraph,
        index: &'a G,
        deadline: &'a Deadline,
        cancellation: &'a C,
        max_file_bytes: usize,
    ) -> (r: Self)
        ensures
            r.loaded == loaded,
            r.index == index,
            r.deadline == deadline,
            r.cancellation == cancellation,
            r.max_file_bytes == max_file_bytes,
            r.candidate_hashes@ == hashes_of(
                loaded.snapshot.files@,
                loaded.snapshot.files@.len(),
            ),
            r.reference_facts is None,
    {
        let mut candidate_hashes: TextMap<[u8; 32]> = TextMap::new();
        let mut i: usize = 0;
        while i < loaded.snapshot.files.len()
            invariant
                i <= loaded.snapshot.files@.len(),
                candidate_hashes@ == hashes_of(loaded.snapshot.files@, i as nat),
            decreases loaded.snapshot.files@.len() - i,
        {
            let file = &loaded.snapshot.files[i];
            candidate_hashes.insert(file.path.as_str().to_owned(), file.content_hash);
            i += 1;
            assert((i as nat - 1) as nat == (i - 1) as nat);
        }
        Self::with_candidate_hashes(
            loaded,
            index,
            deadline,
            cancellation,
            max_file_bytes,
            candidate_hashes,
            None,
        )
    }

    /// A context over a snapshot of which only the digests and one file's facts are in
    /// memory.
    pub fn with_candidate_hashes(
        loaded: &'a LoadedGraph,
        index: &'a G,
        deadline: &'a Deadline,
        cancellation: &'a C,
        max_file_bytes: usize,
        candidate_hashes: TextMap<[u8; 32]>,
        reference_facts: Option<FileFacts>,
    ) -> (r: Self)
        ensures
            r.loaded == loaded,
            r.index == index,
            r.deadline == deadline,
            r.cancellation == cancellation,
            r.max_file_bytes == max_file_bytes,
            r.candidate_hashes == candidate_hashes,
            r.reference_facts == reference_facts,
    {
        QueryCommandContext {
            loaded,
            index,
            deadline,
            cancellation,
            max_file_bytes,
            candidate_hashes,
            reference_facts,
        }
    }
}

/// What a selector resolved to.
#[derive(Debug)]
pub struct SelectorResolution {
    pub ids: Vec<SymbolId>,
    pub symbols: Option<Vec<Symbol>>,
    pub matched_count: usize,
    pub ambiguous: bool,
}

/// The normal form of a project-relative path; any other text stays as it is.
pub open spec fn normalized(path: Seq<char>) -> Seq<char> {
    if rejection(encode_utf8(path)) is None {
        decode_utf8(joined(names(encode_utf8(path))))
    } else {
        path
    }
}

/// Normalizes a project-relative path; any other text stays as it is.
pub fn normalized_project_path(path: &str) -> (r: String)
    ensures
        r@ == normalized(path@),
{
    match ProjectPath::new(path.as_bytes()) {
        Ok(p) => {
            proof {
                encode_utf8_decode_utf8(p@);
            }
            p.to_text()
        },
        Err(_) => path.to_owned(),
    }
}

/// The shown form of a definition, its file normalized.
pub open spec fn symbol_row(s: SymbolView) -> SymbolOutputView {
    symbol_shown(s, normalized(s.file))
}

/// The shown form of a definition, its file normalized.
pub fn symbol_output(symbol: &Symbol) -> (r: SymbolOutput)
    ensures
        r@ == symbol_row(symbol@),
{
    SymbolOutput::of(symbol, normalized_project_path(symbol.file.as_str()))
}

/// The rows of a list.
pub open spec fn symbol_rows(v: Seq<SymbolOutput>) -> Seq<SymbolOutputView> {
    v.map_values(|s: SymbolOutput| s@)
}

/// The shown forms of definitions, in their order.
pub fn symbol_outputs(symbols: &Vec<Symbol>) -> (r: Vec<SymbolOutput>)
    ensures
        symbol_rows(r@) == symbols_seen(symbols@).map_values(|s: SymbolView| symbol_row(s)),
{
    let mut r: Vec<SymbolOutput> = Vec::new();
    let mut i: usize = 0;
    while i < symbols.len()
        invariant
            i <= symbols.len(),
            r@.len() == i,
            forall|j: int| 0 <= j < i ==> (#[trigger] r@[j])@ == symbol_row(symbols@[j]@),
        decreases symbols.len() - i,
    {
        r.push(symbol_output(&symbols[i]));
        i += 1;
    }
    assert(symbol_rows(r@) =~= symbols_seen(symbols@).map_values(|s: SymbolView| symbol_row(s)));
    r
}

/// The envelope of a query: it tells the state of the snapshot that was asked.
pub open spec fn is_query_envelope<T>(e: OutputEnvelope<T>, loaded: LoadedGraph) -> bool {
    &&& e.schema_version == OUTPUT_SCHEMA_VERSION
    &&& e.status == status_of(loaded.snapshot.completeness, loaded.project.freshness)
    &&& e.project is Some
    &&& e.project->0@ == loaded.project@
}

/// The envelope of a query.
pub fn query_envelope<T>(loaded: &LoadedGraph, results: T) -> (r: OutputEnvelope<T>)
    ensures
        is_query_envelope(r, *loaded),
        r.selector is None,
        r.returned == 0,
        r.total == 0,
        !r.truncated,
        r.results == results,
{
    let mut envelope = OutputEnvelope::new(
        success_status(loaded.snapshot.completeness, loaded.project.freshness),
        results,
    );
    envelope.project = Some(loaded.project.copied());
    envelope
}

/// Keeps the first values; tells how many there were and whether any went.
pub fn limit<T>(values: &mut Vec<T>, maximum: usize) -> (r: (usize, bool))
    ensures
        r.0 == old(values)@.len(),
        r.1 == (old(values)@.len() > maximum),
        final(values)@ == (if old(values)@.len() > maximum {
            old(values)@.take(maximum as int)
        } else {
            old(values)@
        }),
{
    let total = values.len();
    let truncated = total > maximum;
    if truncated {
        values.truncate(maximum);
    }
    (total, truncated)
}

/// The first rows of a complete result.
pub open spec fn first_rows<V>(complete: Seq<V>, maximum: usize) -> Seq<V> {
    if complete.len() > maximum {
        complete.take(maximum as int)
    } else {
        complete
    }
}

/// The counts of an envelope tell how much of the complete result it holds.
pub open spec fn counts_told<T, V>(e: OutputEnvelope<T>, rows: Seq<V>, complete: Seq<V>, maximum: usize) -> bool {
    &&& rows == first_rows(complete, maximum)
    &&& e.total == complete.len()
    &&& e.returned == rows.len()
    &&& e.truncated == (complete.len() > maximum)
}

/// An envelope is truncated exactly when it returns fewer rows than there are.
pub proof fn truncation_is_told_truthfully<T, V>(
    e: OutputEnvelope<T>,
    rows: Seq<V>,
    complete: Seq<V>,
    maximum: usize,
)
    requires
        counts_told(e, rows, complete, maximum),
    ensures
        e.returned <= e.total,
        e.returned <= maximum,
        e.truncated <==> e.returned < e.total,
{
}

/// The identities of a list.
pub open spec fn ids_seen(v: Seq<SymbolId>) -> Seq<IdView> {
    v.map_values(|id: SymbolId| id@)
}

/// The report on a selector: the definitions are those it resolved to, if any.
pub open spec fn is_selector_report(s: SelectorOutput, resolution: SelectorResolution) -> bool {
    &&& s.matched == resolution.matched_count
    &&& s.ambiguous == resolution.ambiguous
    &&& ids_seen(s.ids@) == ids_seen(resolution.ids@)
    &&& symbol_rows(s.symbols@) == match resolution.symbols {
        Some(symbols) => symbols_seen(symbols@).map_values(|s: SymbolView| symbol_row(s)),
        None => Seq::empty(),
    }
}

/// The report on a selector.
pub fn selector_output(resolution: SelectorResolution) -> (r: SelectorOutput)
    ensures
        is_selector_report(r, resolution),
{
    let symbols: Vec<SymbolOutput> = match &resolution.symbols {
        Some(symbols) => symbol_outputs(symbols),
        None => Vec::new(),
    };
    assert(resolution.symbols is None ==> symbol_rows(symbols@) =~= Seq::empty());
    SelectorOutput {
        matched: resolution.matched_count,
        ambiguous: resolution.ambiguous,
        ids: resolution.ids,
        symbols,
    }
}

/// A file that a request names is not a project-relative path.
pub open spec fn file_refused(file: Option<&str>) -> bool {
    file matches Some(f) && rejection(encode_utf8(f@)) is Some
}

/// The failure is the refusal of the file that a request names.
pub open spec fn is_refusal(e: CliError, file: Option<&str>) -> bool {
    file_refused(file) && e.is_relative_path(
        encode_utf8(file->0@),
        rejection(encode_utf8(file->0@))->0,
    )
}

/// Reads the file that a request names.
pub fn requested_file(file: Option<&str>) -> (r: Result<Option<ProjectPath>, CliError>)
    ensures
        match r {
            Ok(None) => file is None,
            Ok(Some(p)) => file is Some && !file_refused(file) && p@ == normalized(file->0@),
            Err(e) => is_refusal(e, file),
        },
{
    match file {
        None => Ok(None),
        Some(f) => match ProjectPath::new(f.as_bytes()) {
            Ok(p) => {
                proof {
                    encode_utf8_decode_utf8(p@);
                }
                Ok(Some(p))
            },
            Err(e) => Err(e),
        },
    }
}

} // verus!
