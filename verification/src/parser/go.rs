//! Go: the string literals of import declarations and specs.

use vstd::prelude::*;
use crate::lang::Language;
use crate::parser::{
    append_imports, imports_view, kind_is, literal_imports, literal_items, raw_imports, scan,
    RawImport, RawImportKind, RawImportView, ScanTarget,
};
use crate::syntax::{nodes_view, subtree_end, SyntaxNode, SyntaxNodeView};

verus! {

/// Whether node kind `k` starts an import.
pub open spec fn is_import(k: Seq<char>) -> bool {
    k == "import_declaration"@ || k == "import_spec"@
}

/// The imports that node `i` holds: every string literal below an import
/// declaration or spec.
pub open spec fn imports_of(ns: Seq<SyntaxNodeView>, i: int) -> Seq<RawImportView> {
    if is_import(ns[i].kind) {
        literal_items(
            ns,
            scan(ns, ScanTarget::Literal, i, subtree_end(ns, i)),
            RawImportKind::Module,
        )
    } else {
        Seq::empty()
    }
}

fn imports_at(nodes: &Vec<SyntaxNode>, i: usize) -> (res: Vec<RawImport>)
    requires
        i < nodes@.len(),
    ensures
        imports_view(res@) == imports_of(nodes_view(nodes@), i as int),
{
    if kind_is(&nodes[i], "import_declaration") || kind_is(&nodes[i], "import_spec") {
        literal_imports(nodes, i, RawImportKind::Module)
    } else {
        let out: Vec<RawImport> = Vec::new();
        proof {
            assert(imports_view(out@) =~= Seq::<RawImportView>::empty());
        }
        out
    }
}

/// The imports of a Go syntax tree, in node order.
pub fn extract(nodes: &Vec<SyntaxNode>) -> (res: Vec<RawImport>)
    ensures
        imports_view(res@) == raw_imports(nodes_view(nodes@), Language::Go, nodes@.len() as int),
{
    let mut out: Vec<RawImport> = Vec::new();
    let mut i: usize = 0;
    proof {
        assert(imports_view(out@) =~= Seq::<RawImportView>::empty());
    }
    while i < nodes.len()
        invariant
            i <= nodes@.len(),
            imports_view(out@) == raw_imports(nodes_view(nodes@), Language::Go, i as int),
        decreases nodes.len() - i,
    {
        let more = imports_at(nodes, i);
        append_imports(&mut out, more);
        i = i + 1;
    }
    out
}

} // verus!
