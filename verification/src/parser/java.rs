//! Java: the names of import declarations, static ones included.

use vstd::prelude::*;
use crate::lang::Language;
use crate::parser::{
    append_imports, imports_view, item, kind_is, raw_imports, RawImport, RawImportKind,
    RawImportView,
};
use crate::syntax::{children, children_exec, nodes_view, subtree_end, subtree_end_exec, SyntaxNode, SyntaxNodeView};
use crate::text::{chars_trim, from_chars, to_chars, trim};

verus! {

/// The imports among the children `cs` of an import declaration: each
/// identifier or scoped identifier, trimmed.
pub open spec fn name_items(ns: Seq<SyntaxNodeView>, cs: Seq<int>) -> Seq<RawImportView>
    decreases cs.len(),
{
    if cs.len() == 0 {
        Seq::empty()
    } else {
        let pre = name_items(ns, cs.drop_last());
        let c = ns[cs.last()];
        if c.kind == "scoped_identifier"@ || c.kind == "identifier"@ {
            pre.push(item(trim(c.text), RawImportKind::Module, c))
        } else {
            pre
        }
    }
}

/// The imports that node `i` holds.
pub open spec fn imports_of(ns: Seq<SyntaxNodeView>, i: int) -> Seq<RawImportView> {
    if ns[i].kind == "import_declaration"@ {
        name_items(ns, children(ns, i))
    } else {
        Seq::empty()
    }
}

fn imports_at(nodes: &Vec<SyntaxNode>, i: usize) -> (res: Vec<RawImport>)
    requires
        i < nodes@.len(),
    ensures
        imports_view(res@) == imports_of(nodes_view(nodes@), i as int),
{
    let ghost ns = nodes_view(nodes@);
    let mut out: Vec<RawImport> = Vec::new();
    if !kind_is(&nodes[i], "import_declaration") {
        proof {
            assert(imports_view(out@) =~= Seq::<RawImportView>::empty());
        }
        return out;
    }
    let cs = children_exec(nodes, i);
    let ghost cv = cs@.map_values(|k: usize| k as int);
    let mut k: usize = 0;
    proof {
        assert(imports_view(out@) =~= name_items(ns, cv.take(0)));
    }
    while k < cs.len()
        invariant
            k <= cs@.len(),
            ns == nodes_view(nodes@),
            cv == cs@.map_values(|k: usize| k as int),
            forall|j: int| 0 <= j < cs@.len() ==> #[trigger] cs@[j] < nodes@.len(),
            imports_view(out@) == name_items(ns, cv.take(k as int)),
        decreases cs.len() - k,
    {
        let c = cs[k];
        let node = &nodes[c];
        proof {
            assert(cv.take(k + 1).drop_last() =~= cv.take(k as int));
            assert(cv.take(k + 1).last() == c as int);
            assert(ns[c as int] == node@);
        }
        if kind_is(node, "scoped_identifier") || kind_is(node, "identifier") {
            let t = to_chars(node.text.as_str());
            let a = chars_trim(&t);
            let imp = RawImport::new(from_chars(&a), RawImportKind::Module, node);
            let ghost before = imports_view(out@);
            out.push(imp);
            proof {
                assert(imports_view(out@) =~= before.push(imp@));
            }
        }
        k = k + 1;
    }
    proof {
        assert(cv.take(cs@.len() as int) =~= cv);
    }
    out
}

/// The imports of a Java syntax tree, in node order.
pub fn extract(nodes: &Vec<SyntaxNode>) -> (res: Vec<RawImport>)
    ensures
        imports_view(res@) == raw_imports(nodes_view(nodes@), Language::Java, nodes@.len() as int),
{
    let mut out: Vec<RawImport> = Vec::new();
    let mut i: usize = 0;
    proof {
        assert(imports_view(out@) =~= Seq::<RawImportView>::empty());
    }
    while i < nodes.len()
        invariant
            i <= nodes@.len(),
            imports_view(out@) == raw_imports(nodes_view(nodes@), Language::Java, i as int),
        decreases nodes.len() - i,
    {
        let more = imports_at(nodes, i);
        append_imports(&mut out, more);
        i = i + 1;
    }
    out
}

} // verus!
