//! Bash: the file named after `source` or `.`.

use vstd::prelude::*;
use crate::lang::Language;
use crate::parser::{
    append_imports, imports_view, item, kind_is, raw_imports, RawImport, RawImportKind,
    RawImportView,
};
use crate::syntax::{children, children_exec, nodes_view, subtree_end, subtree_end_exec, SyntaxNode, SyntaxNodeView};
use crate::text::{chars_eq, chars_trim, chars_trim_matches, from_chars, to_chars, trim, trim_matches};

verus! {

/// Whether a trimmed command name reads a file in: `source` or `.`.
pub open spec fn is_source_name(t: Seq<char>) -> bool {
    t == "source"@ || t == "."@
}

/// The file a `source` argument names: trimmed, without `"` and `'` around it.
pub open spec fn source_target(t: Seq<char>) -> Seq<char> {
    trim_matches(trim_matches(trim(t), '"'), '\'')
}

/// The import among the children `cs` of a command from the `k`-th on,
/// where `on` says whether a command name before them was `source` or `.`:
/// the first child after such a name that is no command name itself.
pub open spec fn source_items(ns: Seq<SyntaxNodeView>, cs: Seq<int>, k: int, on: bool) -> Seq<RawImportView>
    decreases cs.len() - k,
{
    if k < 0 || k >= cs.len() {
        Seq::empty()
    } else {
        let c = ns[cs[k]];
        if c.kind == "command_name"@ {
            source_items(ns, cs, k + 1, on || is_source_name(trim(c.text)))
        } else if on {
            seq![item(source_target(c.text), RawImportKind::Include, c)]
        } else {
            source_items(ns, cs, k + 1, on)
        }
    }
}

/// The imports that node `i` holds.
pub open spec fn imports_of(ns: Seq<SyntaxNodeView>, i: int) -> Seq<RawImportView> {
    if ns[i].kind == "command"@ {
        source_items(ns, children(ns, i), 0, false)
    } else {
        Seq::empty()
    }
}

fn imports_at(nodes: &Vec<SyntaxNode>, i: usize) -> (res: Vec<RawImport>)
    requires
        i < nodes@.len(),
    ensures
        imports_view(res@) == imports_of(nodes_view(nodes@), i as int),
{
    let ghost ns = nodes_view(nodes@);
    let mut out: Vec<RawImport> = Vec::new();
    proof {
        assert(imports_view(out@) =~= Seq::<RawImportView>::empty());
    }
    if !kind_is(&nodes[i], "command") {
        return out;
    }
    let cs = children_exec(nodes, i);
    let ghost cv = cs@.map_values(|k: usize| k as int);
    let mut on = false;
    let mut k: usize = 0;
    let source = to_chars("source");
    let dot = to_chars(".");
    while k < cs.len()
        invariant_except_break
            k <= cs@.len(),
            ns == nodes_view(nodes@),
            cv == cs@.map_values(|k: usize| k as int),
            source@ == "source"@,
            dot@ == "."@,
            forall|j: int| 0 <= j < cs@.len() ==> #[trigger] cs@[j] < nodes@.len(),
            out@.len() == 0,
            source_items(ns, cv, k as int, on) == source_items(ns, cv, 0, false),
        ensures
            imports_view(out@) == source_items(ns, cv, 0, false),
        decreases cs.len() - k,
    {
        let c = cs[k];
        let node = &nodes[c];
        proof {
            assert(ns[cv[k as int]] == node@);
        }
        if kind_is(node, "command_name") {
            let t = to_chars(node.text.as_str());
            let name = chars_trim(&t);
            if chars_eq(&name, &source) || chars_eq(&name, &dot) {
                on = true;
            }
        } else if on {
            let t = to_chars(node.text.as_str());
            let a = chars_trim(&t);
            let b = chars_trim_matches(&a, '"');
            let d = chars_trim_matches(&b, '\'');
            let imp = RawImport::new(from_chars(&d), RawImportKind::Include, node);
            out.push(imp);
            proof {
                assert(imports_view(out@) =~= seq![imp@]);
            }
            break;
        }
        k = k + 1;
    }
    out
}

/// The imports of a Bash syntax tree, in node order.
pub fn extract(nodes: &Vec<SyntaxNode>) -> (res: Vec<RawImport>)
    ensures
        imports_view(res@) == raw_imports(nodes_view(nodes@), Language::Bash, nodes@.len() as int),
{
    let mut out: Vec<RawImport> = Vec::new();
    let mut i: usize = 0;
    proof {
        assert(imports_view(out@) =~= Seq::<RawImportView>::empty());
    }
    while i < nodes.len()
        invariant
            i <= nodes@.len(),
            imports_view(out@) == raw_imports(nodes_view(nodes@), Language::Bash, i as int),
        decreases nodes.len() - i,
    {
        let more = imports_at(nodes, i);
        append_imports(&mut out, more);
        i = i + 1;
    }
    out
}

} // verus!
