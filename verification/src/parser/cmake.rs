//! CMake: the first argument of `include` and `add_subdirectory`.

use vstd::prelude::*;
use crate::lang::Language;
use crate::parser::{
    append_imports, imports_view, item, kind_is, raw_imports, RawImport, RawImportKind,
    RawImportView,
};
use crate::syntax::{children, children_exec, nodes_view, subtree_end, subtree_end_exec, SyntaxNode, SyntaxNodeView};
use crate::text::{
    ascii_lower, chars_ascii_lower, chars_eq, chars_trim, chars_trim_matches, from_chars, to_chars,
    trim, trim_matches,
};

verus! {

/// Whether a command name, lowered, is `include` or `add_subdirectory`.
pub open spec fn is_include_command(t: Seq<char>) -> bool {
    ascii_lower(t) == "include"@ || ascii_lower(t) == "add_subdirectory"@
}

/// The first of the nodes `cs` from the `k`-th on that is an argument.
pub open spec fn first_argument(ns: Seq<SyntaxNodeView>, cs: Seq<int>, k: int) -> Option<int>
    decreases cs.len() - k,
{
    if k < 0 || k >= cs.len() {
        None
    } else if ns[cs[k]].kind == "argument"@ {
        Some(cs[k])
    } else {
        first_argument(ns, cs, k + 1)
    }
}

/// The import that an argument list holds: its first argument, trimmed and
/// without `"` around it.
pub open spec fn argument_items(ns: Seq<SyntaxNodeView>, l: int) -> Seq<RawImportView> {
    match first_argument(ns, children(ns, l), 0) {
        Some(a) => seq![item(trim_matches(trim(ns[a].text), '"'), RawImportKind::Include, ns[a])],
        None => Seq::empty(),
    }
}

/// The imports among the children `cs` of a command from the `k`-th on,
/// where `on` says whether a name before them was `include` or
/// `add_subdirectory`: one for each argument list after such a name.
pub open spec fn command_items(ns: Seq<SyntaxNodeView>, cs: Seq<int>, k: int, on: bool) -> Seq<RawImportView>
    decreases cs.len() - k,
{
    if k < 0 || k >= cs.len() {
        Seq::empty()
    } else {
        let c = ns[cs[k]];
        if c.kind == "identifier"@ {
            command_items(ns, cs, k + 1, on || is_include_command(trim(c.text)))
        } else if on && c.kind == "argument_list"@ {
            argument_items(ns, cs[k]) + command_items(ns, cs, k + 1, on)
        } else {
            command_items(ns, cs, k + 1, on)
        }
    }
}

/// The imports that node `i` holds.
pub open spec fn imports_of(ns: Seq<SyntaxNodeView>, i: int) -> Seq<RawImportView> {
    if ns[i].kind == "normal_command"@ {
        command_items(ns, children(ns, i), 0, false)
    } else {
        Seq::empty()
    }
}

/// The import that argument list `l` holds.
fn argument_imports(nodes: &Vec<SyntaxNode>, l: usize) -> (res: Vec<RawImport>)
    requires
        l < nodes@.len(),
    ensures
        imports_view(res@) == argument_items(nodes_view(nodes@), l as int),
{
    let ghost ns = nodes_view(nodes@);
    let cs = children_exec(nodes, l);
    let ghost cv = cs@.map_values(|k: usize| k as int);
    let mut k: usize = 0;
    while k < cs.len()
        invariant
            k <= cs@.len(),
            ns == nodes_view(nodes@),
            cv == cs@.map_values(|k: usize| k as int),
            cv == crate::syntax::children(ns, l as int),
            forall|j: int| 0 <= j < cs@.len() ==> #[trigger] cs@[j] < nodes@.len(),
            first_argument(ns, cv, k as int) == first_argument(ns, cv, 0),
        decreases cs.len() - k,
    {
        let c = cs[k];
        let node = &nodes[c];
        proof {
            assert(ns[cv[k as int]] == node@);
        }
        if kind_is(node, "argument") {
            let t = to_chars(node.text.as_str());
            let a = chars_trim(&t);
            let b = chars_trim_matches(&a, '"');
            let imp = RawImport::new(from_chars(&b), RawImportKind::Include, node);
            let mut out: Vec<RawImport> = Vec::new();
            out.push(imp);
            proof {
                assert(imports_view(out@) =~= seq![imp@]);
            }
            return out;
        }
        k = k + 1;
    }
    let out: Vec<RawImport> = Vec::new();
    proof {
        assert(imports_view(out@) =~= Seq::<RawImportView>::empty());
    }
    out
}

fn imports_at(nodes: &Vec<SyntaxNode>, i: usize) -> (res: Vec<RawImport>)
    requires
        i < nodes@.len(),
    ensures
        imports_view(res@) == imports_of(nodes_view(nodes@), i as int),
{
    let ghost ns = nodes_view(nodes@);
    let mut out: Vec<RawImport> = Vec::new();
    proof {
        assert(imports_view(out@) =~= Seq::<RawImportView>::empty());
    }
    if !kind_is(&nodes[i], "normal_command") {
        return out;
    }
    let cs = children_exec(nodes, i);
    let ghost cv = cs@.map_values(|k: usize| k as int);
    let mut on = false;
    let mut k: usize = 0;
    let w1 = to_chars("include");
    let w2 = to_chars("add_subdirectory");
    while k < cs.len()
        invariant
            k <= cs@.len(),
            ns == nodes_view(nodes@),
            cv == cs@.map_values(|k: usize| k as int),
            w1@ == "include"@,
            w2@ == "add_subdirectory"@,
            forall|j: int| 0 <= j < cs@.len() ==> #[trigger] cs@[j] < nodes@.len(),
            imports_view(out@) + command_items(ns, cv, k as int, on) == command_items(ns, cv, 0, false),
        decreases cs.len() - k,
    {
        let c = cs[k];
        let node = &nodes[c];
        proof {
            assert(ns[cv[k as int]] == node@);
        }
        let ghost before = imports_view(out@);
        if kind_is(node, "identifier") {
            let t = to_chars(node.text.as_str());
            let a = chars_trim(&t);
            let name = chars_ascii_lower(&a);
            if chars_eq(&name, &w1) || chars_eq(&name, &w2) {
                on = true;
            }
        } else if on && kind_is(node, "argument_list") {
            let more = argument_imports(nodes, c);
            append_imports(&mut out, more);
            proof {
                assert(before + argument_items(ns, c as int) + command_items(ns, cv, k + 1, on)
                    =~= before + (argument_items(ns, c as int) + command_items(ns, cv, k + 1, on)));
            }
        }
        k = k + 1;
    }
    proof {
        assert(imports_view(out@) + Seq::<RawImportView>::empty() =~= imports_view(out@));
    }
    out
}

/// The imports of a CMake syntax tree, in node order.
pub fn extract(nodes: &Vec<SyntaxNode>) -> (res: Vec<RawImport>)
    ensures
        imports_view(res@) == raw_imports(nodes_view(nodes@), Language::CMake, nodes@.len() as int),
{
    let mut out: Vec<RawImport> = Vec::new();
    let mut i: usize = 0;
    proof {
        assert(imports_view(out@) =~= Seq::<RawImportView>::empty());
    }
    while i < nodes.len()
        invariant
            i <= nodes@.len(),
            imports_view(out@) == raw_imports(nodes_view(nodes@), Language::CMake, i as int),
        decreases nodes.len() - i,
    {
        let more = imports_at(nodes, i);
        append_imports(&mut out, more);
        i = i + 1;
    }
    out
}

} // verus!
