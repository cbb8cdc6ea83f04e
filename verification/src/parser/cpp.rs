//! C and C++: the quoted or angle-bracket target of each `#include`.

use vstd::prelude::*;
use crate::lang::Language;
use crate::parser::{
    append_imports, imports_view, item, kind_is, node_imports, raw_imports, RawImport,
    RawImportKind, RawImportView,
};
use crate::syntax::{children, children_exec, lemma_children, nodes_view, SyntaxNode, SyntaxNodeView};
use crate::text::{chars_trim, chars_trim_matches, from_chars, to_chars, trim, trim_matches};

verus! {

/// The target of an include literal: trimmed, without `"`, `<` and `>` around it.
pub open spec fn include_target(t: Seq<char>) -> Seq<char> {
    trim_matches(trim_matches(trim_matches(trim(t), '"'), '<'), '>')
}

/// The includes among the children `cs`: string and system-library literals.
pub open spec fn include_items(ns: Seq<SyntaxNodeView>, cs: Seq<int>) -> Seq<RawImportView>
    decreases cs.len(),
{
    if cs.len() == 0 {
        Seq::empty()
    } else {
        let pre = include_items(ns, cs.drop_last());
        let c = ns[cs.last()];
        if c.kind == "string_literal"@ || c.kind == "system_lib_string"@ {
            pre.push(item(include_target(c.text), RawImportKind::Include, c))
        } else {
            pre
        }
    }
}

/// The imports that node `i` holds.
pub open spec fn imports_of(ns: Seq<SyntaxNodeView>, i: int) -> Seq<RawImportView> {
    if ns[i].kind == "preproc_include"@ {
        include_items(ns, children(ns, i))
    } else {
        Seq::empty()
    }
}

fn imports_at(nodes: &Vec<SyntaxNode>, i: usize) -> (res: Vec<RawImport>)
    requires
        i < nodes@.len(),
    ensures
        imports_view(res@) == imports_of(nodes_view(nodes@), i as int),
{
    let ghost ns = nodes_view(nodes@);
    let mut out: Vec<RawImport> = Vec::new();
    if !kind_is(&nodes[i], "preproc_include") {
        proof {
            assert(imports_view(out@) =~= Seq::<RawImportView>::empty());
        }
        return out;
    }
    let cs = children_exec(nodes, i);
    let ghost cv = cs@.map_values(|k: usize| k as int);
    let mut k: usize = 0;
    proof {
        assert(imports_view(out@) =~= include_items(ns, cv.take(0)));
    }
    while k < cs.len()
        invariant
            k <= cs@.len(),
            ns == nodes_view(nodes@),
            cv == cs@.map_values(|k: usize| k as int),
            forall|j: int| 0 <= j < cs@.len() ==> #[trigger] cs@[j] < nodes@.len(),
            imports_view(out@) == include_items(ns, cv.take(k as int)),
        decreases cs.len() - k,
    {
        let c = cs[k];
        let node = &nodes[c];
        proof {
            assert(cv.take(k + 1).drop_last() =~= cv.take(k as int));
            assert(cv.take(k + 1).last() == c as int);
            assert(ns[c as int] == node@);
        }
        if kind_is(node, "string_literal") || kind_is(node, "system_lib_string") {
            let t = to_chars(node.text.as_str());
            let a = chars_trim(&t);
            let b = chars_trim_matches(&a, '"');
            let d = chars_trim_matches(&b, '<');
            let e = chars_trim_matches(&d, '>');
            let imp = RawImport::new(from_chars(&e), RawImportKind::Include, node);
            let ghost before = imports_view(out@);
            out.push(imp);
            proof {
                assert(imports_view(out@) =~= before.push(imp@));
            }
        }
        k = k + 1;
    }
    proof {
        assert(cv.take(cs@.len() as int) =~= cv);
    }
    out
}

/// The includes of a C or C++ syntax tree, in node order.
pub fn extract(nodes: &Vec<SyntaxNode>) -> (res: Vec<RawImport>)
    ensures
        imports_view(res@) == raw_imports(nodes_view(nodes@), Language::C, nodes@.len() as int),
{
    let mut out: Vec<RawImport> = Vec::new();
    let mut i: usize = 0;
    proof {
        assert(imports_view(out@) =~= Seq::<RawImportView>::empty());
    }
    while i < nodes.len()
        invariant
            i <= nodes@.len(),
            imports_view(out@) == raw_imports(nodes_view(nodes@), Language::C, i as int),
        decreases nodes.len() - i,
    {
        let more = imports_at(nodes, i);
        append_imports(&mut out, more);
        i = i + 1;
    }
    out
}

} // verus!
