//! What commands work on and what they give.

use vstd::prelude::*;
use crate::cache::snapshot::LoadedSnapshot;
use crate::graph::CodeGraph;
use crate::project::select::ProjectSelection;
use crate::result::{
    ImpactOutput, IndexOutput, ModuleDependencyOutput, OutputEnvelope, ProjectOutput,
    ReferenceOutput, RelationOutput, StatusOutput, SymbolOutput,
};

verus! {

/// A graph selected from cache or prepared in memory under the command policy.
#[derive(Debug)]
pub struct LoadedGraph {
    pub selection: ProjectSelection,
    pub snapshot: LoadedSnapshot,
    pub graph: CodeGraph,
    pub project: ProjectOutput,
}

/// Result of an executable command.
#[derive(Debug)]
pub enum CommandOutput {
    Index(OutputEnvelope<IndexOutput>),
    Status(OutputEnvelope<StatusOutput>),
    Symbols(OutputEnvelope<Vec<SymbolOutput>>),
    Def(OutputEnvelope<Vec<SymbolOutput>>),
    Callers(OutputEnvelope<Vec<RelationOutput>>),
    Callees(OutputEnvelope<Vec<RelationOutput>>),
    Usages(OutputEnvelope<Vec<RelationOutput>>),
    Impact(OutputEnvelope<Vec<ImpactOutput>>),
    Imports(OutputEnvelope<Vec<RelationOutput>>),
    References(OutputEnvelope<Vec<ReferenceOutput>>),
    ModuleDeps(OutputEnvelope<Vec<ModuleDependencyOutput>>),
    LoadedGraph(LoadedGraph),
}

} // verus!
