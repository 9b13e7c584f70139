//! Per-file application of already-selected package coordinates.

use vstd::prelude::*;
use vstd::string::*;
use crate::graph::{FileFacts, IdView, Package, PackageView, Symbol, SymbolId};
use crate::ordering::reversed;
use crate::package_assignment::types::{PackageAssignmentSet, SourcePackageAssignment};
use crate::text::same_text;

verus! {

/// The identity inside a package: a global identity without a package gets it;
/// local identities and those that already belong to a package stay.
pub open spec fn packaged(id: IdView, p: PackageView) -> IdView {
    match id {
        IdView::Global { language, package: None, descriptors } => IdView::Global {
            language,
            package: Some(p),
            descriptors,
        },
        _ => id,
    }
}

/// The symbols differ in their identity only, and there as [`packaged`] says.
pub open spec fn is_packaged(before: Symbol, after: Symbol, p: PackageView) -> bool {
    &&& after.id@ == packaged(before.id@, p)
    &&& after.name == before.name
    &&& after.kind == before.kind
    &&& after.visibility == before.visibility
    &&& after.entry_points == before.entry_points
    &&& after.file == before.file
    &&& after.line == before.line
    &&& after.span == before.span
    &&& after.signature == before.signature
}

/// The package selected for a file: that of the first assignment of its path.
pub open spec fn selected_package(
    assignments: Seq<SourcePackageAssignment>,
    file: Seq<char>,
) -> Option<Package>
    decreases assignments.len(),
{
    if assignments.len() == 0 {
        None
    } else if assignments[0].source_path@ == file {
        assignments[0].package
    } else {
        selected_package(assignments.drop_first(), file)
    }
}

/// The facts with the package applied to every symbol, and nothing else changed.
pub open spec fn facts_packaged(before: FileFacts, after: FileFacts, p: PackageView) -> bool {
    &&& after.symbols@.len() == before.symbols@.len()
    &&& forall|i: int|
        0 <= i < before.symbols@.len() ==> is_packaged(
            before.symbols@[i],
            #[trigger] after.symbols@[i],
            p,
        )
    &&& after.file == before.file
    &&& after.lang == before.lang
    &&& after.references == before.references
    &&& after.scopes == before.scopes
    &&& after.bindings == before.bindings
    &&& after.ffi_exports == before.ffi_exports
}

fn with_package(symbol: Symbol, package: &Package) -> (r: Symbol)
    ensures
        is_packaged(symbol, r, package@),
{
    let id = match symbol.id {
        SymbolId::Global { language, package: None, descriptors } => SymbolId::Global {
            language,
            package: Some(package.copied()),
            descriptors,
        },
        other => other,
    };
    Symbol {
        id,
        name: symbol.name,
        kind: symbol.kind,
        visibility: symbol.visibility,
        entry_points: symbol.entry_points,
        file: symbol.file,
        line: symbol.line,
        span: symbol.span,
        signature: symbol.signature,
    }
}

impl PackageAssignmentSet {
    /// Applies the already-selected source package to one worker result.
    ///
    /// This is deliberately a per-file operation: every file can carry a different
    /// nearest manifest, so no whole-graph package assumption is made. Missing
    /// assignments and assignments with no package leave the facts unchanged.
    pub fn enrich_file_facts(&self, facts: &mut FileFacts)
        ensures
            match selected_package(self.assignments@, old(facts).file@) {
                None => *final(facts) == *old(facts),
                Some(p) => facts_packaged(*old(facts), *final(facts), p@),
            },
    {
        let ghost all = self.assignments@;
        let ghost file = facts.file@;
        let mut i: usize = 0;
        assert(all.skip(0) =~= all);
        while i < self.assignments.len() && !same_text(
            self.assignments[i].source_path.as_str(),
            facts.file.as_str(),
        )
            invariant
                i <= self.assignments.len(),
                all == self.assignments@,
                file == facts.file@,
                selected_package(all, file) == selected_package(all.skip(i as int), file),
            decreases self.assignments.len() - i,
        {
            assert(all.skip(i as int)[0] == all[i as int]);
            assert(all.skip(i as int).drop_first() =~= all.skip(i as int + 1));
            i += 1;
        }
        if i >= self.assignments.len() {
            return;
        }
        assert(all.skip(i as int)[0] == all[i as int]);
        match &self.assignments[i].package {
            None => {},
            Some(package) => {
                let ghost before = *facts;
                let mut symbols: Vec<Symbol> = Vec::new();
                std::mem::swap(&mut symbols, &mut facts.symbols);
                let ghost start = symbols@;
                let mut back: Vec<Symbol> = Vec::new();
                while symbols.len() > 0
                    invariant
                        symbols@.len() + back@.len() == start.len(),
                        symbols@ == start.take(symbols@.len() as int),
                        forall|j: int|
                            0 <= j < back@.len() ==> is_packaged(
                                start[start.len() - 1 - j],
                                #[trigger] back@[j],
                                package@,
                            ),
                    decreases symbols.len(),
                {
                    match symbols.pop() {
                        Some(symbol) => back.push(with_package(symbol, package)),
                        None => {},
                    }
                }
                let done = reversed(back);
                proof {
                    assert forall|j: int| 0 <= j < start.len() implies is_packaged(
                        start[j],
                        #[trigger] done@[j],
                        package@,
                    ) by {
                        assert(done@[j] == back@[back@.len() - 1 - j]);
                    }
                }
                facts.symbols = done;
            },
        }
    }
}

} // verus!
