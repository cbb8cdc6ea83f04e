//! Python: `import` statements and `from ... import ...` statements with
//! the names they import.

use vstd::prelude::*;
use crate::lang::Language;
use crate::parser::{
    append_imports, field_child, field_child_exec, imports_view, item, kind_is, raw_imports, scan,
    scan_exec, RawImport, RawImportKind, RawImportView, ScanTarget,
};
use crate::syntax::{lemma_end_scan, nodes_view, subtree_end, subtree_end_exec, SyntaxNode, SyntaxNodeView};

verus! {

/// The module of a `from` statement: the first dotted name or relative
/// import among the nodes from `j` on, before `end`, looking into a node's
/// children before its next sibling; an `import` keyword ends the search
/// among its siblings.
pub open spec fn from_target(ns: Seq<SyntaxNodeView>, j: int, end: int) -> Option<Seq<char>>
    decreases ns.len() - j,
    via from_target_decreases
{
    if j < 0 || j >= end || j >= ns.len() {
        None
    } else if ns[j].kind == "import"@ {
        None
    } else if ns[j].kind == "dotted_name"@ || ns[j].kind == "relative_import"@ {
        Some(ns[j].text)
    } else {
        match from_target(ns, j + 1, subtree_end(ns, j)) {
            Some(t) => Some(t),
            None => from_target(ns, subtree_end(ns, j), end),
        }
    }
}

#[via_fn]
proof fn from_target_decreases(ns: Seq<SyntaxNodeView>, j: int, end: int) {
    if !(j < 0 || j >= end || j >= ns.len()) {
        lemma_end_scan(ns, ns[j].depth, j + 1);
    }
}

/// The names that node `c` of a `from` statement imports: the name of an
/// aliased import, a dotted name or identifier itself, what the first child
/// of an `as` pattern names, and otherwise what its children name, the last
/// child first.
pub open spec fn symbol_names(ns: Seq<SyntaxNodeView>, c: int) -> Seq<Seq<char>>
    decreases ns.len() - c, 0int,
    via symbol_names_decreases
{
    if c < 0 || c >= ns.len() {
        Seq::empty()
    } else if ns[c].kind == "aliased_import"@ {
        match field_child(ns, c + 1, subtree_end(ns, c), "name"@) {
            Some(n) => seq![ns[n].text],
            None => Seq::empty(),
        }
    } else if ns[c].kind == "dotted_name"@ || ns[c].kind == "identifier"@ {
        seq![ns[c].text]
    } else if ns[c].kind == "as_pattern"@ {
        if c + 1 < subtree_end(ns, c) {
            symbol_names(ns, c + 1)
        } else {
            Seq::empty()
        }
    } else {
        names_reversed(ns, c + 1, subtree_end(ns, c))
    }
}

/// What the nodes from `j` on, before `end`, stepping over subtrees, name,
/// the last one first.
pub open spec fn names_reversed(ns: Seq<SyntaxNodeView>, j: int, end: int) -> Seq<Seq<char>>
    decreases ns.len() - j, 1int,
    via names_reversed_decreases
{
    if j < 0 || j >= end || j >= ns.len() {
        Seq::empty()
    } else {
        names_reversed(ns, subtree_end(ns, j), end) + symbol_names(ns, j)
    }
}

#[via_fn]
proof fn symbol_names_decreases(ns: Seq<SyntaxNodeView>, c: int) {
}

#[via_fn]
proof fn names_reversed_decreases(ns: Seq<SyntaxNodeView>, j: int, end: int) {
    if !(j < 0 || j >= end || j >= ns.len()) {
        lemma_end_scan(ns, ns[j].depth, j + 1);
    }
}

/// The names a `from` statement imports: what each child after the
/// `import` keyword names, in order. The children are the nodes from `j`
/// on, before `end`, stepping over subtrees; `seen` says whether the
/// keyword came before them.
pub open spec fn imported_names(ns: Seq<SyntaxNodeView>, j: int, end: int, seen: bool) -> Seq<
    Seq<char>,
>
    decreases ns.len() - j,
    via imported_names_decreases
{
    if j < 0 || j >= end || j >= ns.len() {
        Seq::empty()
    } else if ns[j].kind == "import"@ {
        imported_names(ns, subtree_end(ns, j), end, true)
    } else if seen {
        symbol_names(ns, j) + imported_names(ns, subtree_end(ns, j), end, seen)
    } else {
        imported_names(ns, subtree_end(ns, j), end, seen)
    }
}

#[via_fn]
proof fn imported_names_decreases(ns: Seq<SyntaxNodeView>, j: int, end: int, seen: bool) {
    if !(j < 0 || j >= end || j >= ns.len()) {
        lemma_end_scan(ns, ns[j].depth, j + 1);
    }
}

/// The imports that node `i` holds: the dotted names of an `import`
/// statement, or the module of a `from` statement with the names it imports.
pub open spec fn imports_of(ns: Seq<SyntaxNodeView>, i: int) -> Seq<RawImportView> {
    let end = subtree_end(ns, i);
    if ns[i].kind == "import_statement"@ {
        scan(ns, ScanTarget::DottedName, i + 1, end).map_values(
            |m: int| item(ns[m].text, RawImportKind::Module, ns[m]),
        )
    } else if ns[i].kind == "import_from_statement"@ {
        match from_target(ns, i + 1, end) {
            Some(t) => seq![
                RawImportView {
                    symbols: imported_names(ns, i + 1, end, false),
                    ..item(t, RawImportKind::Symbol, ns[i])
                },
            ],
            None => Seq::empty(),
        }
    } else {
        Seq::empty()
    }
}

fn from_target_exec(nodes: &Vec<SyntaxNode>, j: usize, end: usize) -> (res: Option<String>)
    requires
        j <= nodes@.len(),
    ensures
        match res {
            Some(t) => from_target(nodes_view(nodes@), j as int, end as int) == Some(t@),
            None => from_target(nodes_view(nodes@), j as int, end as int) is None,
        },
    decreases nodes@.len() - j,
{
    if j >= end || j >= nodes.len() {
        return None;
    }
    let node = &nodes[j];
    if kind_is(node, "import") {
        None
    } else if kind_is(node, "dotted_name") || kind_is(node, "relative_import") {
        Some(node.text.clone())
    } else {
        let next = subtree_end_exec(nodes, j);
        match from_target_exec(nodes, j + 1, next) {
            Some(t) => Some(t),
            None => from_target_exec(nodes, next, end),
        }
    }
}

fn push_text(out: &mut Vec<String>, node: &SyntaxNode)
    ensures
        final(out).deep_view() == old(out).deep_view().push(node@.text),
{
    let ghost before = out.deep_view();
    out.push(node.text.clone());
    proof {
        assert(out.deep_view() =~= before.push(node@.text));
    }
}

fn append_names(out: &mut Vec<String>, more: Vec<String>)
    ensures
        final(out).deep_view() == old(out).deep_view() + more.deep_view(),
{
    let mut more = more;
    let ghost m = more.deep_view();
    let ghost o = out.deep_view();
    let ghost mv = more@;
    let ghost ov = out@;
    out.append(&mut more);
    proof {
        assert(out@ =~= ov + mv);
        assert(out.deep_view() =~= o + m);
    }
}

fn symbol_names_exec(nodes: &Vec<SyntaxNode>, c: usize) -> (res: Vec<String>)
    requires
        c < nodes@.len(),
    ensures
        res.deep_view() == symbol_names(nodes_view(nodes@), c as int),
    decreases nodes@.len() - c, 0int,
{
    let ghost ns = nodes_view(nodes@);
    let node = &nodes[c];
    let end = subtree_end_exec(nodes, c);
    let mut out: Vec<String> = Vec::new();
    proof {
        assert(out.deep_view() =~= Seq::<Seq<char>>::empty());
    }
    if kind_is(node, "aliased_import") {
        match field_child_exec(nodes, c + 1, end, "name") {
            Some(n) => {
                push_text(&mut out, &nodes[n]);
                proof {
                    assert(out.deep_view() =~= seq![ns[n as int].text]);
                }
            },
            None => {},
        }
        out
    } else if kind_is(node, "dotted_name") || kind_is(node, "identifier") {
        push_text(&mut out, node);
        proof {
            assert(out.deep_view() =~= seq![ns[c as int].text]);
        }
        out
    } else if kind_is(node, "as_pattern") {
        if c + 1 < end {
            symbol_names_exec(nodes, c + 1)
        } else {
            out
        }
    } else {
        names_reversed_exec(nodes, c + 1, end)
    }
}

fn names_reversed_exec(nodes: &Vec<SyntaxNode>, j: usize, end: usize) -> (res: Vec<String>)
    requires
        j <= nodes@.len(),
    ensures
        res.deep_view() == names_reversed(nodes_view(nodes@), j as int, end as int),
    decreases nodes@.len() - j, 1int,
{
    if j >= end || j >= nodes.len() {
        let out: Vec<String> = Vec::new();
        proof {
            assert(out.deep_view() =~= Seq::<Seq<char>>::empty());
        }
        return out;
    }
    let next = subtree_end_exec(nodes, j);
    let mut out = names_reversed_exec(nodes, next, end);
    let mine = symbol_names_exec(nodes, j);
    append_names(&mut out, mine);
    out
}

fn imported_names_exec(nodes: &Vec<SyntaxNode>, start: usize, end: usize) -> (res: Vec<String>)
    requires
        start <= nodes@.len(),
    ensures
        res.deep_view() == imported_names(nodes_view(nodes@), start as int, end as int, false),
{
    let ghost ns = nodes_view(nodes@);
    let mut out: Vec<String> = Vec::new();
    let mut seen = false;
    let mut j = start;
    proof {
        assert(out.deep_view() =~= Seq::<Seq<char>>::empty());
    }
    while j < end && j < nodes.len()
        invariant
            j <= nodes@.len(),
            ns == nodes_view(nodes@),
            out.deep_view() + imported_names(ns, j as int, end as int, seen) == imported_names(
                ns,
                start as int,
                end as int,
                false,
            ),
        decreases nodes@.len() - j,
    {
        let next = subtree_end_exec(nodes, j);
        let ghost before = out.deep_view();
        if kind_is(&nodes[j], "import") {
            seen = true;
        } else if seen {
            let mine = symbol_names_exec(nodes, j);
            let ghost m = mine.deep_view();
            append_names(&mut out, mine);
            proof {
                assert(before + m + imported_names(ns, next as int, end as int, seen) =~= before + (m
                    + imported_names(ns, next as int, end as int, seen)));
            }
        }
        j = next;
    }
    proof {
        assert(out.deep_view() + Seq::<Seq<char>>::empty() =~= out.deep_view());
    }
    out
}

fn imports_at(nodes: &Vec<SyntaxNode>, i: usize) -> (res: Vec<RawImport>)
    requires
        i < nodes@.len(),
    ensures
        imports_view(res@) == imports_of(nodes_view(nodes@), i as int),
{
    let ghost ns = nodes_view(nodes@);
    let node = &nodes[i];
    let end = subtree_end_exec(nodes, i);
    let mut out: Vec<RawImport> = Vec::new();
    proof {
        assert(imports_view(out@) =~= Seq::<RawImportView>::empty());
    }
    if kind_is(node, "import_statement") {
        let ms = scan_exec(nodes, ScanTarget::DottedName, i + 1, end);
        let ghost mv = ms@.map_values(|k: usize| k as int);
        let mut k: usize = 0;
        while k < ms.len()
            invariant
                k <= ms@.len(),
                ns == nodes_view(nodes@),
                mv == ms@.map_values(|k: usize| k as int),
                forall|q: int| 0 <= q < ms@.len() ==> #[trigger] ms@[q] < nodes@.len(),
                imports_view(out@) == mv.take(k as int).map_values(
                    |m: int| item(ns[m].text, RawImportKind::Module, ns[m]),
                ),
            decreases ms.len() - k,
        {
            let d = &nodes[ms[k]];
            let imp = RawImport::new(d.text.clone(), RawImportKind::Module, d);
            let ghost before = imports_view(out@);
            out.push(imp);
            proof {
                assert(ns[mv[k as int]] == d@);
                assert(imports_view(out@) =~= before.push(imp@));
                assert(mv.take(k + 1) =~= mv.take(k as int).push(mv[k as int]));
                assert(mv.take(k + 1).map_values(
                    |m: int| item(ns[m].text, RawImportKind::Module, ns[m]),
                ) =~= mv.take(k as int).map_values(
                    |m: int| item(ns[m].text, RawImportKind::Module, ns[m]),
                ).push(item(ns[mv[k as int]].text, RawImportKind::Module, ns[mv[k as int]])));
            }
            k = k + 1;
        }
        proof {
            assert(mv.take(ms@.len() as int) =~= mv);
        }
        out
    } else if kind_is(node, "import_from_statement") {
        match from_target_exec(nodes, i + 1, end) {
            Some(t) => {
                let names = imported_names_exec(nodes, i + 1, end);
                let imp = RawImport::new(t, RawImportKind::Symbol, node).with_symbols(names);
                out.push(imp);
                proof {
                    assert(imports_view(out@) =~= seq![imp@]);
                }
                out
            },
            None => out,
        }
    } else {
        out
    }
}

/// The imports of a Python syntax tree, in node order.
pub fn extract(nodes: &Vec<SyntaxNode>) -> (res: Vec<RawImport>)
    ensures
        imports_view(res@) == raw_imports(nodes_view(nodes@), Language::Python, nodes@.len() as int),
{
    let mut out: Vec<RawImport> = Vec::new();
    let mut i: usize = 0;
    proof {
        assert(imports_view(out@) =~= Seq::<RawImportView>::empty());
    }
    while i < nodes.len()
        invariant
            i <= nodes@.len(),
            imports_view(out@) == raw_imports(nodes_view(nodes@), Language::Python, i as int),
        decreases nodes.len() - i,
    {
        let more = imports_at(nodes, i);
        append_imports(&mut out, more);
        i = i + 1;
    }
    out
}

} // verus!
