//! TypeScript and JavaScript: static, side-effect, dynamic and re-exporting imports.

use vstd::prelude::*;
use crate::lang::Language;
use crate::parser::{
    append_imports, imports_view, kind_is, literal_imports, literal_items, raw_imports, scan,
    RawImport, RawImportKind, RawImportView, ScanTarget,
};
use crate::syntax::{nodes_view, subtree_end, SyntaxNode, SyntaxNodeView};
use crate::text::{chars_starts_with, chars_trim_start, starts_with, to_chars, trim_start};

verus! {

/// The kind of an import statement: a side effect when it imports a string
/// directly (`import "x"` or `import 'x'`), a module otherwise.
pub open spec fn statement_kind(text: Seq<char>) -> RawImportKind {
    if starts_with(trim_start(text), "import \""@) || starts_with(trim_start(text), "import '"@) {
        RawImportKind::SideEffect
    } else {
        RawImportKind::Module
    }
}

/// Whether a call expression is a dynamic import.
pub open spec fn is_dynamic_import(text: Seq<char>) -> bool {
    starts_with(trim_start(text), "import("@)
}

/// The kind of the imports that node `n` starts, if it starts any.
pub open spec fn trigger_kind(n: SyntaxNodeView) -> Option<RawImportKind> {
    if n.kind == "import_statement"@ {
        Some(statement_kind(n.text))
    } else if n.kind == "export_statement"@ {
        Some(RawImportKind::ReExport)
    } else if n.kind == "call_expression"@ && is_dynamic_import(n.text) {
        Some(RawImportKind::Dynamic)
    } else {
        None
    }
}

/// The imports that node `i` holds: every string literal below an import
/// statement, an export statement or a dynamic import.
pub open spec fn imports_of(ns: Seq<SyntaxNodeView>, i: int) -> Seq<RawImportView> {
    match trigger_kind(ns[i]) {
        Some(kind) => literal_items(ns, scan(ns, ScanTarget::Literal, i, subtree_end(ns, i)), kind),
        None => Seq::empty(),
    }
}

fn trigger_kind_exec(node: &SyntaxNode) -> (res: Option<RawImportKind>)
    ensures
        res == trigger_kind(node@),
{
    if kind_is(node, "import_statement") {
        let t = to_chars(node.text.as_str());
        let s = chars_trim_start(&t);
        let p1 = to_chars("import \"");
        let p2 = to_chars("import '");
        if chars_starts_with(&s, &p1) || chars_starts_with(&s, &p2) {
            Some(RawImportKind::SideEffect)
        } else {
            Some(RawImportKind::Module)
        }
    } else if kind_is(node, "export_statement") {
        Some(RawImportKind::ReExport)
    } else if kind_is(node, "call_expression") {
        let t = to_chars(node.text.as_str());
        let s = chars_trim_start(&t);
        let p = to_chars("import(");
        if chars_starts_with(&s, &p) {
            Some(RawImportKind::Dynamic)
        } else {
            None
        }
    } else {
        None
    }
}

fn imports_at(nodes: &Vec<SyntaxNode>, i: usize) -> (res: Vec<RawImport>)
    requires
        i < nodes@.len(),
    ensures
        imports_view(res@) == imports_of(nodes_view(nodes@), i as int),
{
    match trigger_kind_exec(&nodes[i]) {
        Some(kind) => literal_imports(nodes, i, kind),
        None => {
            let out: Vec<RawImport> = Vec::new();
            proof {
                assert(imports_view(out@) =~= Seq::<RawImportView>::empty());
            }
            out
        },
    }
}

/// The imports of a TypeScript or JavaScript syntax tree, in node order.
pub fn extract(nodes: &Vec<SyntaxNode>) -> (res: Vec<RawImport>)
    ensures
        imports_view(res@) == raw_imports(nodes_view(nodes@), Language::TypeScript, nodes@.len() as int),
{
    let mut out: Vec<RawImport> = Vec::new();
    let mut i: usize = 0;
    proof {
        assert(imports_view(out@) =~= Seq::<RawImportView>::empty());
    }
    while i < nodes.len()
        invariant
            i <= nodes@.len(),
            imports_view(out@) == raw_imports(nodes_view(nodes@), Language::TypeScript, i as int),
        decreases nodes.len() - i,
    {
        let more = imports_at(nodes, i);
        append_imports(&mut out, more);
        i = i + 1;
    }
    out
}

} // verus!
