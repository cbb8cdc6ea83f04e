//! Rust: out-of-line modules (`mod name;`) and the paths of `use` trees.

use vstd::prelude::*;
use crate::lang::Language;
use crate::parser::{
    append_imports, field_child, field_child_exec, field_is, imports_view, item, kind_child,
    kind_child_exec, kind_is, raw_imports, RawImport, RawImportKind, RawImportView,
};
use crate::path::lemma_chars_deep_view;
use crate::syntax::{nodes_view, subtree_end, subtree_end_exec, SyntaxNode, SyntaxNodeView};
use crate::text::{
    append_chars, chars_ends_with, chars_strip_suffix, chars_trim, ends_with, from_chars, strip_suffix,
    to_chars, trim,
};

verus! {

/// `prefix::s`, or the one of them that is not empty.
pub open spec fn join_path(prefix: Seq<char>, s: Seq<char>) -> Seq<char> {
    if prefix.len() == 0 {
        s
    } else if s.len() == 0 {
        prefix
    } else {
        prefix + "::"@ + s
    }
}

/// The path a leaf of a use tree names under `prefix`; `a::self` names `a`.
pub open spec fn leaf_path(prefix: Seq<char>, s: Seq<char>) -> Seq<char> {
    let p = join_path(prefix, s);
    match strip_suffix(p, "::self"@) {
        Some(q) => q,
        None => p,
    }
}

/// The path of a glob import without its trailing `::*`.
pub open spec fn glob_base(t: Seq<char>) -> Seq<char> {
    let a = match strip_suffix(t, "*"@) {
        Some(q) => q,
        None => t,
    };
    match strip_suffix(a, "::"@) {
        Some(q) => q,
        None => a,
    }
}

/// Punctuation and comments inside a brace list of a use tree.
pub open spec fn is_list_noise(k: Seq<char>) -> bool {
    k == "{"@ || k == "}"@ || k == ","@ || k == "line_comment"@ || k == "block_comment"@
}

/// The paths that the use tree at node `i` names under `prefix`, in order.
pub open spec fn use_paths(ns: Seq<SyntaxNodeView>, prefix: Seq<char>, i: int) -> Seq<Seq<char>>
    decreases ns.len() - i, 0int,
{
    if i < 0 || i >= ns.len() {
        Seq::empty()
    } else {
        let end = subtree_end(ns, i);
        let k = ns[i].kind;
        if k == "use_list"@ {
            list_paths(ns, prefix, i + 1, end, None)
        } else if k == "scoped_use_list"@ {
            let pre = match field_child(ns, i + 1, end, "path"@) {
                Some(p) => join_path(prefix, ns[p].text),
                None => prefix,
            };
            list_paths(ns, pre, i + 1, end, Some("list"@))
        } else if k == "use_as_clause"@ {
            list_paths(ns, prefix, i + 1, end, Some("path"@))
        } else if k == "use_wildcard"@ {
            seq![leaf_path(prefix, glob_base(ns[i].text))]
        } else {
            seq![leaf_path(prefix, ns[i].text)]
        }
    }
}

/// The paths that the nodes from `j` on, before `end`, stepping over
/// subtrees, name under `prefix`: those filling field `only` when it is
/// given, every one but punctuation and comments otherwise.
pub open spec fn list_paths(
    ns: Seq<SyntaxNodeView>,
    prefix: Seq<char>,
    j: int,
    end: int,
    only: Option<Seq<char>>,
) -> Seq<Seq<char>>
    decreases ns.len() - j, 1int,
    via list_paths_decreases
{
    if j < 0 || j >= end || j >= ns.len() {
        Seq::empty()
    } else {
        let here = match only {
            Some(f) => if ns[j].field == Some(f) {
                use_paths(ns, prefix, j)
            } else {
                Seq::empty()
            },
            None => if is_list_noise(ns[j].kind) {
                Seq::empty()
            } else {
                use_paths(ns, prefix, j)
            },
        };
        here + list_paths(ns, prefix, subtree_end(ns, j), end, only)
    }
}

#[via_fn]
proof fn list_paths_decreases(
    ns: Seq<SyntaxNodeView>,
    prefix: Seq<char>,
    j: int,
    end: int,
    only: Option<Seq<char>>,
) {
    if !(j < 0 || j >= end || j >= ns.len()) {
        crate::syntax::lemma_end_scan(ns, ns[j].depth, j + 1);
    }
}

/// Whether node `n` declares a module in another file: `mod name;`.
pub open spec fn is_mod_declaration(n: SyntaxNodeView) -> bool {
    n.kind == "mod_item"@ && ends_with(trim(n.text), ";"@)
}

/// The imports that node `i` holds: the name of an out-of-line module, or
/// each path of a `use` declaration.
pub open spec fn imports_of(ns: Seq<SyntaxNodeView>, i: int) -> Seq<RawImportView> {
    let end = subtree_end(ns, i);
    if is_mod_declaration(ns[i]) {
        match kind_child(ns, i + 1, end, "identifier"@) {
            Some(c) => seq![item(ns[c].text, RawImportKind::Module, ns[i])],
            None => Seq::empty(),
        }
    } else if ns[i].kind == "use_declaration"@ {
        list_paths(ns, Seq::empty(), i + 1, end, Some("argument"@)).map_values(
            |p: Seq<char>| item(p, RawImportKind::Symbol, ns[i]),
        )
    } else {
        Seq::empty()
    }
}

fn join_path_exec(prefix: &Vec<char>, s: &Vec<char>) -> (res: Vec<char>)
    ensures
        res@ == join_path(prefix@, s@),
{
    if prefix.len() == 0 {
        s.clone()
    } else if s.len() == 0 {
        prefix.clone()
    } else {
        let mut out = prefix.clone();
        let sep = to_chars("::");
        append_chars(&mut out, &sep);
        append_chars(&mut out, s);
        out
    }
}

fn leaf_path_exec(prefix: &Vec<char>, s: &Vec<char>) -> (res: Vec<char>)
    ensures
        res@ == leaf_path(prefix@, s@),
{
    let p = join_path_exec(prefix, s);
    let tail = to_chars("::self");
    match chars_strip_suffix(&p, &tail) {
        Some(q) => q,
        None => p,
    }
}

fn glob_base_exec(t: &Vec<char>) -> (res: Vec<char>)
    ensures
        res@ == glob_base(t@),
{
    let star = to_chars("*");
    let sep = to_chars("::");
    let a = match chars_strip_suffix(t, &star) {
        Some(q) => q,
        None => t.clone(),
    };
    match chars_strip_suffix(&a, &sep) {
        Some(q) => q,
        None => a,
    }
}

fn push_path(out: &mut Vec<Vec<char>>, p: Vec<char>)
    ensures
        final(out).deep_view() == old(out).deep_view().push(p@),
{
    let ghost before = out.deep_view();
    proof {
        lemma_chars_deep_view(&p);
    }
    out.push(p);
    proof {
        assert(out.deep_view() =~= before.push(p@));
    }
}

fn append_paths(out: &mut Vec<Vec<char>>, more: Vec<Vec<char>>)
    ensures
        final(out).deep_view() == old(out).deep_view() + more.deep_view(),
{
    let mut more = more;
    let ghost m = more.deep_view();
    let ghost o = out.deep_view();
    let ghost mv = more@;
    let ghost ov = out@;
    out.append(&mut more);
    proof {
        assert(out@ =~= ov + mv);
        assert(out.deep_view() =~= o + m);
    }
}

fn use_paths_exec(nodes: &Vec<SyntaxNode>, prefix: &Vec<char>, i: usize) -> (res: Vec<Vec<char>>)
    requires
        i < nodes@.len(),
    ensures
        res.deep_view() == use_paths(nodes_view(nodes@), prefix@, i as int),
    decreases nodes@.len() - i, 0int,
{
    let ghost ns = nodes_view(nodes@);
    let node = &nodes[i];
    let end = subtree_end_exec(nodes, i);
    if kind_is(node, "use_list") {
        list_paths_exec(nodes, prefix, i + 1, end, None)
    } else if kind_is(node, "scoped_use_list") {
        let pre = match field_child_exec(nodes, i + 1, end, "path") {
            Some(p) => {
                let t = to_chars(nodes[p].text.as_str());
                join_path_exec(prefix, &t)
            },
            None => prefix.clone(),
        };
        list_paths_exec(nodes, &pre, i + 1, end, Some("list"))
    } else if kind_is(node, "use_as_clause") {
        list_paths_exec(nodes, prefix, i + 1, end, Some("path"))
    } else {
        let t = to_chars(node.text.as_str());
        let leaf = if kind_is(node, "use_wildcard") {
            let b = glob_base_exec(&t);
            leaf_path_exec(prefix, &b)
        } else {
            leaf_path_exec(prefix, &t)
        };
        let mut out: Vec<Vec<char>> = Vec::new();
        push_path(&mut out, leaf);
        proof {
            assert(out.deep_view() =~= use_paths(ns, prefix@, i as int));
        }
        out
    }
}

fn list_paths_exec(
    nodes: &Vec<SyntaxNode>,
    prefix: &Vec<char>,
    start: usize,
    end: usize,
    only: Option<&str>,
) -> (res: Vec<Vec<char>>)
    requires
        start <= nodes@.len(),
    ensures
        res.deep_view() == list_paths(
            nodes_view(nodes@),
            prefix@,
            start as int,
            end as int,
            match only {
                Some(f) => Some(f@),
                None => None,
            },
        ),
    decreases nodes@.len() - start, 1int,
{
    let ghost ns = nodes_view(nodes@);
    let ghost ov = match only {
        Some(f) => Some(f@),
        None => None,
    };
    let mut out: Vec<Vec<char>> = Vec::new();
    let mut j = start;
    proof {
        assert(out.deep_view() =~= Seq::<Seq<char>>::empty());
    }
    while j < end && j < nodes.len()
        invariant
            start <= j <= nodes@.len(),
            ns == nodes_view(nodes@),
            ov == match only {
                Some(f) => Some(f@),
                None => None,
            },
            out.deep_view() + list_paths(ns, prefix@, j as int, end as int, ov) == list_paths(
                ns,
                prefix@,
                start as int,
                end as int,
                ov,
            ),
        decreases nodes@.len() - j,
    {
        let node = &nodes[j];
        let next = subtree_end_exec(nodes, j);
        proof {
            assert(ns[j as int] == node@);
        }
        let take = match only {
            Some(f) => field_is(node, f),
            None => !(kind_is(node, "{") || kind_is(node, "}") || kind_is(node, ",") || kind_is(
                node,
                "line_comment",
            ) || kind_is(node, "block_comment")),
        };
        let ghost before = out.deep_view();
        if take {
            let more = use_paths_exec(nodes, prefix, j);
            let ghost m = more.deep_view();
            append_paths(&mut out, more);
            proof {
                assert(before + m + list_paths(ns, prefix@, next as int, end as int, ov) =~= before
                    + (m + list_paths(ns, prefix@, next as int, end as int, ov)));
            }
        } else {
            proof {
                assert(list_paths(ns, prefix@, j as int, end as int, ov) =~= list_paths(
                    ns,
                    prefix@,
                    next as int,
                    end as int,
                    ov,
                ));
            }
        }
        j = next;
    }
    proof {
        assert(out.deep_view() + Seq::<Seq<char>>::empty() =~= out.deep_view());
    }
    out
}

fn imports_at(nodes: &Vec<SyntaxNode>, i: usize) -> (res: Vec<RawImport>)
    requires
        i < nodes@.len(),
    ensures
        imports_view(res@) == imports_of(nodes_view(nodes@), i as int),
{
    let ghost ns = nodes_view(nodes@);
    let node = &nodes[i];
    let end = subtree_end_exec(nodes, i);
    let mut out: Vec<RawImport> = Vec::new();
    proof {
        assert(imports_view(out@) =~= Seq::<RawImportView>::empty());
        assert(ns[i as int] == node@);
    }
    let is_mod = if kind_is(node, "mod_item") {
        let t = to_chars(node.text.as_str());
        let a = chars_trim(&t);
        let semi = to_chars(";");
        chars_ends_with(&a, &semi)
    } else {
        false
    };
    if is_mod {
        match kind_child_exec(nodes, i + 1, end, "identifier") {
            Some(c) => {
                let imp = RawImport::new(nodes[c].text.clone(), RawImportKind::Module, node);
                out.push(imp);
                proof {
                    assert(imports_view(out@) =~= seq![imp@]);
                }
            },
            None => {},
        }
        out
    } else if kind_is(node, "use_declaration") {
        let root: Vec<char> = Vec::new();
        proof {
            assert(root@ =~= Seq::<char>::empty());
        }
        let paths = list_paths_exec(nodes, &root, i + 1, end, Some("argument"));
        let ghost pv = paths.deep_view();
        let mut k: usize = 0;
        while k < paths.len()
            invariant
                k <= paths@.len(),
                ns == nodes_view(nodes@),
                pv == paths.deep_view(),
                ns[i as int] == node@,
                i < nodes@.len(),
                imports_view(out@) == pv.take(k as int).map_values(
                    |p: Seq<char>| item(p, RawImportKind::Symbol, ns[i as int]),
                ),
            decreases paths.len() - k,
        {
            let imp = RawImport::new(from_chars(&paths[k]), RawImportKind::Symbol, node);
            let ghost before = imports_view(out@);
            out.push(imp);
            proof {
                lemma_chars_deep_view(&paths@[k as int]);
                assert(pv[k as int] == paths@[k as int]@);
                assert(imports_view(out@) =~= before.push(imp@));
                assert(pv.take(k + 1) =~= pv.take(k as int).push(pv[k as int]));
                assert(pv.take(k + 1).map_values(
                    |p: Seq<char>| item(p, RawImportKind::Symbol, ns[i as int]),
                ) =~= pv.take(k as int).map_values(
                    |p: Seq<char>| item(p, RawImportKind::Symbol, ns[i as int]),
                ).push(item(pv[k as int], RawImportKind::Symbol, ns[i as int])));
            }
            k = k + 1;
        }
        proof {
            assert(pv.take(paths@.len() as int) =~= pv);
        }
        out
    } else {
        out
    }
}

/// The imports of a Rust syntax tree, in node order.
pub fn extract(nodes: &Vec<SyntaxNode>) -> (res: Vec<RawImport>)
    ensures
        imports_view(res@) == raw_imports(nodes_view(nodes@), Language::Rust, nodes@.len() as int),
{
    let mut out: Vec<RawImport> = Vec::new();
    let mut i: usize = 0;
    proof {
        assert(imports_view(out@) =~= Seq::<RawImportView>::empty());
    }
    while i < nodes.len()
        invariant
            i <= nodes@.len(),
            imports_view(out@) == raw_imports(nodes_view(nodes@), Language::Rust, i as int),
        decreases nodes.len() - i,
    {
        let more = imports_at(nodes, i);
        append_imports(&mut out, more);
        i = i + 1;
    }
    out
}

} // verus!
