//! Make: the files named by `include`, `-include` and `sinclude`.

use vstd::prelude::*;
use crate::lang::Language;
use crate::parser::{
    append_imports, imports_view, item, kind_is, raw_imports, RawImport, RawImportKind,
    RawImportView,
};
use crate::syntax::{children, children_exec, nodes_view, subtree_end, subtree_end_exec, SyntaxNode, SyntaxNodeView};
use crate::text::{chars_eq, chars_trim, chars_trim_matches, from_chars, to_chars, trim, trim_matches};

verus! {

/// A word of a directive: trimmed, without `"` and `'` around it.
pub open spec fn word_value(t: Seq<char>) -> Seq<char> {
    trim_matches(trim_matches(trim(t), '"'), '\'')
}

/// Whether a word is the directive keyword itself.
pub open spec fn is_directive_word(v: Seq<char>) -> bool {
    v == "include"@ || v == "-include"@ || v == "sinclude"@
}

/// The imports among the nodes from `j` on, before `end`: every word or
/// string that is not the directive keyword.
pub open spec fn word_items(ns: Seq<SyntaxNodeView>, j: int, end: int) -> Seq<RawImportView>
    decreases end - j,
{
    if j < 0 || j >= end || j >= ns.len() {
        Seq::empty()
    } else {
        let n = ns[j];
        let rest = word_items(ns, j + 1, end);
        if (n.kind == "word"@ || n.kind == "string"@) && !is_directive_word(word_value(n.text)) {
            seq![item(word_value(n.text), RawImportKind::Include, n)] + rest
        } else {
            rest
        }
    }
}

/// The imports that node `i` holds: the words of an include directive.
pub open spec fn imports_of(ns: Seq<SyntaxNodeView>, i: int) -> Seq<RawImportView> {
    if ns[i].kind == "include_directive"@ {
        word_items(ns, i, subtree_end(ns, i))
    } else {
        Seq::empty()
    }
}

fn imports_at(nodes: &Vec<SyntaxNode>, i: usize) -> (res: Vec<RawImport>)
    requires
        i < nodes@.len(),
    ensures
        imports_view(res@) == imports_of(nodes_view(nodes@), i as int),
{
    let ghost ns = nodes_view(nodes@);
    let mut out: Vec<RawImport> = Vec::new();
    proof {
        assert(imports_view(out@) =~= Seq::<RawImportView>::empty());
    }
    if !kind_is(&nodes[i], "include_directive") {
        return out;
    }
    let end = subtree_end_exec(nodes, i);
    let kw1 = to_chars("include");
    let kw2 = to_chars("-include");
    let kw3 = to_chars("sinclude");
    let mut j: usize = i;
    while j < end
        invariant
            i <= j <= end,
            end <= nodes@.len(),
            end == subtree_end(ns, i as int),
            ns == nodes_view(nodes@),
            kw1@ == "include"@,
            kw2@ == "-include"@,
            kw3@ == "sinclude"@,
            imports_view(out@) + word_items(ns, j as int, end as int) == word_items(
                ns,
                i as int,
                end as int,
            ),
        decreases end - j,
    {
        let node = &nodes[j];
        let ghost before = imports_view(out@);
        if kind_is(node, "word") || kind_is(node, "string") {
            let t = to_chars(node.text.as_str());
            let a = chars_trim(&t);
            let b = chars_trim_matches(&a, '"');
            let v = chars_trim_matches(&b, '\'');
            if !(chars_eq(&v, &kw1) || chars_eq(&v, &kw2) || chars_eq(&v, &kw3)) {
                let imp = RawImport::new(from_chars(&v), RawImportKind::Include, node);
                out.push(imp);
                proof {
                    assert(imports_view(out@) =~= before.push(imp@));
                    assert(before.push(imp@) + word_items(ns, j + 1, end as int) =~= before + (
                    seq![imp@] + word_items(ns, j + 1, end as int)));
                }
            }
        }
        j = j + 1;
    }
    proof {
        assert(word_items(ns, j as int, end as int) =~= Seq::<RawImportView>::empty());
        assert(imports_view(out@) + Seq::<RawImportView>::empty() =~= imports_view(out@));
    }
    out
}

/// The imports of a Makefile syntax tree, in node order.
pub fn extract(nodes: &Vec<SyntaxNode>) -> (res: Vec<RawImport>)
    ensures
        imports_view(res@) == raw_imports(nodes_view(nodes@), Language::Make, nodes@.len() as int),
{
    let mut out: Vec<RawImport> = Vec::new();
    let mut i: usize = 0;
    proof {
        assert(imports_view(out@) =~= Seq::<RawImportView>::empty());
    }
    while i < nodes.len()
        invariant
            i <= nodes@.len(),
            imports_view(out@) == raw_imports(nodes_view(nodes@), Language::Make, i as int),
        decreases nodes.len() - i,
    {
        let more = imports_at(nodes, i);
        append_imports(&mut out, more);
        i = i + 1;
    }
    out
}

} // verus!
