//! Rust files resolved from their syntax: `mod name;` declarations and the
//! paths of `use` trees, read from rust-analyzer's syntax tree, matched
//! against the files being scanned.

use vstd::prelude::*;
use crate::lang::Language;
use crate::model::{edges_view, ResolvedEdge, ResolvedEdgeView};
use crate::parser::{kind_child, kind_child_exec, kind_is, lemma_kind_child};
use crate::path::{
    display, join, lemma_parse_display, lemma_parse_wf, lemma_strip_join, parent, parse_path, render,
    strip_prefix_path, PathModel, PathView,
};
use crate::resolver::common::{
    candidate_base, exists_file, in_set, is_file, path_eq, read_file, read_text, set_contains,
    FileSystemView,
};
use crate::resolver::rust::{nearest_src, nearest_src_dir, rust_candidates, rust_path_candidates};
use crate::syntax::{rust_syntax_of, rust_syntax_tree};
use crate::walker::{relative_path, relative_text};
use crate::path::lemma_chars_deep_view;
use crate::syntax::{lemma_end_scan, nodes_view, subtree_end, subtree_end_exec, SyntaxNode, SyntaxNodeView};
use crate::text::{
    lemma_trim_trim, starts_with, trim_end, trim_start, append_chars, chars_trim, chars_trim_end_str, chars_trim_start_str, to_chars, trim, trim_end_str,
    trim_start_str,
};

verus! {

/// Why the dependency edges could not be found.
#[derive(Debug, Clone, PartialEq, Eq)]
pub enum BackendError {
    /// The text of this file was not available.
    Unreadable(String),
}

/// `prefix::suffix` of two trimmed `::` paths, without `::` at the end of
/// the prefix and at the start of the suffix; the other one when one of
/// them is empty.
pub open spec fn join_path(prefix: Seq<char>, suffix: Seq<char>) -> Seq<char> {
    let p = trim_end_str(trim(prefix), "::"@);
    let s = trim_start_str(trim(suffix), "::"@);
    if p.len() == 0 {
        s
    } else if s.len() == 0 {
        p
    } else {
        p + "::"@ + s
    }
}

/// The paths that use tree `t` names under `prefix`: each leaf's full
/// path, a glob's path, and a leaf ending in `::self` without it; empty
/// paths are left out.
pub open spec fn tree_paths(ns: Seq<SyntaxNodeView>, t: int, prefix: Seq<char>) -> Seq<Seq<char>>
    decreases ns.len() - t, 0int,
    via tree_paths_decreases
{
    if t < 0 || t >= ns.len() {
        Seq::empty()
    } else {
        let end = subtree_end(ns, t);
        let base = trim_end_str(prefix, "::"@);
        let cur = match kind_child(ns, t + 1, end, "PATH"@) {
            Some(p) => join_path(base, trim(ns[p].text)),
            None => base,
        };
        match kind_child(ns, t + 1, end, "USE_TREE_LIST"@) {
            Some(l) => list_tree_paths(ns, l + 1, subtree_end(ns, l), cur),
            None => if kind_child(ns, t + 1, end, "STAR"@) is Some {
                if cur.len() > 0 {
                    seq![cur]
                } else {
                    Seq::empty()
                }
            } else {
                let c = trim_end_str(cur, "::self"@);
                if c.len() > 0 {
                    seq![c]
                } else {
                    Seq::empty()
                }
            },
        }
    }
}

/// The paths that the use trees among the nodes from `j` on, before `end`,
/// stepping over subtrees, name under `prefix`, in order.
pub open spec fn list_tree_paths(ns: Seq<SyntaxNodeView>, j: int, end: int, prefix: Seq<char>) -> Seq<
    Seq<char>,
>
    decreases ns.len() - j, 1int,
    via list_tree_paths_decreases
{
    if j < 0 || j >= end || j >= ns.len() {
        Seq::empty()
    } else {
        let here = if ns[j].kind == "USE_TREE"@ {
            tree_paths(ns, j, prefix)
        } else {
            Seq::empty()
        };
        here + list_tree_paths(ns, subtree_end(ns, j), end, prefix)
    }
}

#[via_fn]
proof fn tree_paths_decreases(ns: Seq<SyntaxNodeView>, t: int, prefix: Seq<char>) {
    if !(t < 0 || t >= ns.len()) {
        lemma_kind_child(ns, t + 1, subtree_end(ns, t), "USE_TREE_LIST"@);
    }
}

#[via_fn]
proof fn list_tree_paths_decreases(ns: Seq<SyntaxNodeView>, j: int, end: int, prefix: Seq<char>) {
    if !(j < 0 || j >= end || j >= ns.len()) {
        lemma_end_scan(ns, ns[j].depth, j + 1);
    }
}


/// A glob `use` tree (`path::*`, no list) names exactly its path: the
/// trimmed text of its `PATH` child, when that is not empty.
pub proof fn law_glob_tree_paths(ns: Seq<SyntaxNodeView>, t: int, p: int)
    requires
        0 <= t < ns.len(),
        kind_child(ns, t + 1, subtree_end(ns, t), "USE_TREE_LIST"@) is None,
        kind_child(ns, t + 1, subtree_end(ns, t), "STAR"@) is Some,
        kind_child(ns, t + 1, subtree_end(ns, t), "PATH"@) == Some(p),
        !starts_with(trim(ns[p].text), "::"@),
    ensures
        tree_paths(ns, t, Seq::empty()) == (if trim(ns[p].text).len() > 0 {
            seq![trim(ns[p].text)]
        } else {
            Seq::<Seq<char>>::empty()
        }),
{
    let e = Seq::<char>::empty();
    assert(trim_end_str(e, "::"@) == e);
    assert(trim_start(e) == e);
    assert(trim_end(e) == e);
    assert(trim(e) == e);
    lemma_trim_trim(ns[p].text);
    assert(trim_start_str(trim(ns[p].text), "::"@) == trim(ns[p].text));
    assert(join_path(e, trim(ns[p].text)) == trim(ns[p].text));
}

/// A plain `use` tree (`a::b`, no list, no `*`) names its path, without
/// a final `::self`, when that is not empty.
pub proof fn law_leaf_tree_paths(ns: Seq<SyntaxNodeView>, t: int, p: int)
    requires
        0 <= t < ns.len(),
        kind_child(ns, t + 1, subtree_end(ns, t), "USE_TREE_LIST"@) is None,
        kind_child(ns, t + 1, subtree_end(ns, t), "STAR"@) is None,
        kind_child(ns, t + 1, subtree_end(ns, t), "PATH"@) == Some(p),
        !starts_with(trim(ns[p].text), "::"@),
    ensures
        tree_paths(ns, t, Seq::empty()) == (if trim_end_str(trim(ns[p].text), "::self"@).len() > 0 {
            seq![trim_end_str(trim(ns[p].text), "::self"@)]
        } else {
            Seq::<Seq<char>>::empty()
        }),
{
    let e = Seq::<char>::empty();
    assert(trim_end_str(e, "::"@) == e);
    assert(trim_start(e) == e);
    assert(trim_end(e) == e);
    assert(trim(e) == e);
    lemma_trim_trim(ns[p].text);
    assert(trim_start_str(trim(ns[p].text), "::"@) == trim(ns[p].text));
    assert(join_path(e, trim(ns[p].text)) == trim(ns[p].text));
}

/// The module that node `i` declares in another file (`mod name;`): the
/// text of its name.
pub open spec fn declared_module(ns: Seq<SyntaxNodeView>, i: int) -> Option<Seq<char>> {
    let end = subtree_end(ns, i);
    if ns[i].kind == "MODULE"@ && kind_child(ns, i + 1, end, "SEMICOLON"@) is Some {
        match kind_child(ns, i + 1, end, "NAME"@) {
            Some(n) => Some(ns[n].text),
            None => None,
        }
    } else {
        None
    }
}

/// The modules that the first `n` nodes declare in other files, in order.
pub open spec fn module_names(ns: Seq<SyntaxNodeView>, n: int) -> Seq<Seq<char>>
    decreases n,
{
    if n <= 0 {
        Seq::empty()
    } else {
        match declared_module(ns, n - 1) {
            Some(m) => module_names(ns, n - 1).push(m),
            None => module_names(ns, n - 1),
        }
    }
}

/// The paths of the use tree of node `i`, when it is a `use` item.
pub open spec fn use_item_paths(ns: Seq<SyntaxNodeView>, i: int) -> Seq<Seq<char>> {
    if ns[i].kind == "USE"@ {
        match kind_child(ns, i + 1, subtree_end(ns, i), "USE_TREE"@) {
            Some(t) => tree_paths(ns, t, Seq::empty()),
            None => Seq::empty(),
        }
    } else {
        Seq::empty()
    }
}

/// The paths of the `use` items among the first `n` nodes, in order.
pub open spec fn use_paths(ns: Seq<SyntaxNodeView>, n: int) -> Seq<Seq<char>>
    decreases n,
{
    if n <= 0 {
        Seq::empty()
    } else {
        use_paths(ns, n - 1) + use_item_paths(ns, n - 1)
    }
}

fn join_path_exec(prefix: &[char], suffix: &[char]) -> (res: Vec<char>)
    ensures
        res@ == join_path(prefix@, suffix@),
{
    let sep = to_chars("::");
    let a = chars_trim(prefix);
    let p = chars_trim_end_str(&a, &sep);
    let b = chars_trim(suffix);
    let s = chars_trim_start_str(&b, &sep);
    if p.len() == 0 {
        s
    } else if s.len() == 0 {
        p
    } else {
        let mut out = p;
        append_chars(&mut out, &sep);
        append_chars(&mut out, &s);
        out
    }
}

fn push_path(out: &mut Vec<Vec<char>>, p: Vec<char>)
    ensures
        final(out).deep_view() == old(out).deep_view().push(p@),
{
    let ghost before = out.deep_view();
    proof {
        lemma_chars_deep_view(&p);
    }
    out.push(p);
    proof {
        assert(out.deep_view() =~= before.push(p@));
    }
}

fn append_paths(out: &mut Vec<Vec<char>>, more: Vec<Vec<char>>)
    ensures
        final(out).deep_view() == old(out).deep_view() + more.deep_view(),
{
    let mut more = more;
    let ghost m = more.deep_view();
    let ghost o = out.deep_view();
    let ghost mv = more@;
    let ghost ov = out@;
    out.append(&mut more);
    proof {
        assert(out@ =~= ov + mv);
        assert(out.deep_view() =~= o + m);
    }
}

fn tree_paths_exec(nodes: &Vec<SyntaxNode>, t: usize, prefix: &Vec<char>) -> (res: Vec<Vec<char>>)
    requires
        t < nodes@.len(),
    ensures
        res.deep_view() == tree_paths(nodes_view(nodes@), t as int, prefix@),
    decreases nodes@.len() - t, 0int,
{
    let ghost ns = nodes_view(nodes@);
    let end = subtree_end_exec(nodes, t);
    let sep = to_chars("::");
    let base = chars_trim_end_str(prefix, &sep);
    let cur = match kind_child_exec(nodes, t + 1, end, "PATH") {
        Some(p) => {
            let text = to_chars(nodes[p].text.as_str());
            let tt = chars_trim(&text);
            join_path_exec(&base, &tt)
        },
        None => base,
    };
    let mut out: Vec<Vec<char>> = Vec::new();
    proof {
        assert(out.deep_view() =~= Seq::<Seq<char>>::empty());
    }
    match kind_child_exec(nodes, t + 1, end, "USE_TREE_LIST") {
        Some(l) => {
            let lend = subtree_end_exec(nodes, l);
            list_tree_paths_exec(nodes, l + 1, lend, &cur)
        },
        None => {
            if kind_child_exec(nodes, t + 1, end, "STAR").is_some() {
                if cur.len() > 0 {
                    push_path(&mut out, cur);
                    proof {
                        assert(out.deep_view() =~= tree_paths(ns, t as int, prefix@));
                    }
                }
            } else {
                let tail = to_chars("::self");
                let c = chars_trim_end_str(&cur, &tail);
                if c.len() > 0 {
                    push_path(&mut out, c);
                    proof {
                        assert(out.deep_view() =~= tree_paths(ns, t as int, prefix@));
                    }
                }
            }
            out
        },
    }
}

fn list_tree_paths_exec(nodes: &Vec<SyntaxNode>, start: usize, end: usize, prefix: &Vec<char>) -> (res:
    Vec<Vec<char>>)
    requires
        start <= nodes@.len(),
    ensures
        res.deep_view() == list_tree_paths(nodes_view(nodes@), start as int, end as int, prefix@),
    decreases nodes@.len() - start, 1int,
{
    let ghost ns = nodes_view(nodes@);
    let mut out: Vec<Vec<char>> = Vec::new();
    let mut j = start;
    proof {
        assert(out.deep_view() =~= Seq::<Seq<char>>::empty());
    }
    while j < end && j < nodes.len()
        invariant
            start <= j <= nodes@.len(),
            ns == nodes_view(nodes@),
            out.deep_view() + list_tree_paths(ns, j as int, end as int, prefix@) == list_tree_paths(
                ns,
                start as int,
                end as int,
                prefix@,
            ),
        decreases nodes@.len() - j,
    {
        let next = subtree_end_exec(nodes, j);
        proof {
            assert(ns[j as int] == nodes@[j as int]@);
        }
        let ghost before = out.deep_view();
        if kind_is(&nodes[j], "USE_TREE") {
            let more = tree_paths_exec(nodes, j, prefix);
            let ghost m = more.deep_view();
            append_paths(&mut out, more);
            proof {
                assert(before + m + list_tree_paths(ns, next as int, end as int, prefix@) =~= before
                    + (m + list_tree_paths(ns, next as int, end as int, prefix@)));
            }
        } else {
            proof {
                assert(list_tree_paths(ns, j as int, end as int, prefix@) =~= list_tree_paths(
                    ns,
                    next as int,
                    end as int,
                    prefix@,
                ));
            }
        }
        j = next;
    }
    proof {
        assert(out.deep_view() + Seq::<Seq<char>>::empty() =~= out.deep_view());
    }
    out
}

/// The modules that a Rust syntax tree declares in other files, in order.
pub fn module_names_exec(nodes: &Vec<SyntaxNode>) -> (res: Vec<Vec<char>>)
    ensures
        res.deep_view() == module_names(nodes_view(nodes@), nodes@.len() as int),
{
    let ghost ns = nodes_view(nodes@);
    let mut out: Vec<Vec<char>> = Vec::new();
    let mut i: usize = 0;
    proof {
        assert(out.deep_view() =~= Seq::<Seq<char>>::empty());
    }
    while i < nodes.len()
        invariant
            i <= nodes@.len(),
            ns == nodes_view(nodes@),
            out.deep_view() == module_names(ns, i as int),
        decreases nodes.len() - i,
    {
        let node = &nodes[i];
        proof {
            assert(ns[i as int] == node@);
        }
        if kind_is(node, "MODULE") {
            let end = subtree_end_exec(nodes, i);
            if kind_child_exec(nodes, i + 1, end, "SEMICOLON").is_some() {
                match kind_child_exec(nodes, i + 1, end, "NAME") {
                    Some(n) => {
                        let name = to_chars(nodes[n].text.as_str());
                        push_path(&mut out, name);
                    },
                    None => {},
                }
            }
        }
        i = i + 1;
    }
    out
}

/// The paths of the `use` items of a Rust syntax tree, in order.
pub fn use_paths_exec(nodes: &Vec<SyntaxNode>) -> (res: Vec<Vec<char>>)
    ensures
        res.deep_view() == use_paths(nodes_view(nodes@), nodes@.len() as int),
{
    let ghost ns = nodes_view(nodes@);
    let mut out: Vec<Vec<char>> = Vec::new();
    let mut i: usize = 0;
    proof {
        assert(out.deep_view() =~= Seq::<Seq<char>>::empty());
    }
    while i < nodes.len()
        invariant
            i <= nodes@.len(),
            ns == nodes_view(nodes@),
            out.deep_view() == use_paths(ns, i as int),
        decreases nodes.len() - i,
    {
        let node = &nodes[i];
        proof {
            assert(ns[i as int] == node@);
        }
        let ghost before = out.deep_view();
        if kind_is(node, "USE") {
            let end = subtree_end_exec(nodes, i);
            match kind_child_exec(nodes, i + 1, end, "USE_TREE") {
                Some(t) => {
                    let root: Vec<char> = Vec::new();
                    proof {
                        assert(root@ =~= Seq::<char>::empty());
                    }
                    let more = tree_paths_exec(nodes, t, &root);
                    append_paths(&mut out, more);
                },
                None => {
                    proof {
                        assert(before + Seq::<Seq<char>>::empty() =~= before);
                    }
                },
            }
        } else {
            proof {
                assert(before + Seq::<Seq<char>>::empty() =~= before);
            }
        }
        i = i + 1;
    }
    out
}

/// The files that a module candidate `base` may be: itself, `base.rs` and
/// `base/mod.rs`.
pub open spec fn module_file_options(base: Seq<char>) -> Seq<Seq<char>> {
    seq![base, base + ".rs"@, base + "/mod.rs"@]
}

/// The texts of a list of strings.
pub open spec fn names_of(v: Seq<String>) -> Seq<Seq<char>> {
    v.map_values(|s: String| s@)
}

/// The first of `opts` that is one of `set`.
pub open spec fn first_listed(opts: Seq<Seq<char>>, set: Seq<Seq<char>>) -> Option<Seq<char>>
    decreases opts.len(),
{
    if opts.len() == 0 {
        None
    } else if set.contains(opts[0]) {
        Some(opts[0])
    } else {
        first_listed(opts.drop_first(), set)
    }
}

proof fn lemma_in_set_names(set: Seq<String>, x: Seq<char>)
    ensures
        in_set(set, x) == names_of(set).contains(x),
{
    if in_set(set, x) {
        let i = choose|i: int| 0 <= i < set.len() && (#[trigger] set[i])@ == x;
        assert(names_of(set)[i] == x);
    }
    if names_of(set).contains(x) {
        let i = choose|i: int| 0 <= i < names_of(set).len() && names_of(set)[i] == x;
        assert(set[i]@ == x);
    }
}

/// The scanned file (relative to `root`) that `candidate` names, if any.
pub open spec fn module_file(root: PathView, candidate: PathView, set: Seq<Seq<char>>) -> Option<
    Seq<char>,
> {
    first_listed(module_file_options(candidate_base(root, candidate)), set)
}

/// The file that the first candidate naming one names.
pub open spec fn first_module_file(root: PathView, cands: Seq<PathView>, set: Seq<Seq<char>>) -> Option<
    Seq<char>,
>
    decreases cands.len(),
{
    if cands.len() == 0 {
        None
    } else {
        match module_file(root, cands[0], set) {
            Some(t) => Some(t),
            None => first_module_file(root, cands.drop_first(), set),
        }
    }
}

/// An edge from `from` to `to`, unless both are the same path.
pub open spec fn edge_to(from: Seq<char>, to: Seq<char>, label: Seq<char>) -> Seq<ResolvedEdgeView> {
    if parse_path(from) == parse_path(to) {
        Seq::empty()
    } else {
        seq![ResolvedEdgeView { from, to, label, language: Language::Rust }]
    }
}

/// The directory of `file`, or `root` when it has none.
pub open spec fn file_dir(root: PathView, file: Seq<char>) -> PathView {
    match parent(parse_path(file)) {
        Some(d) => d,
        None => root,
    }
}

/// The path of the scanned file `rel` under `root`.
pub open spec fn target_path(root: PathView, rel: Seq<char>) -> Seq<char> {
    display(join(root, parse_path(rel)))
}

/// The path `p` as `files` write it: the last of them with the same
/// components, or `p` itself.
pub open spec fn scanned_path(files: Seq<Seq<char>>, p: Seq<char>) -> Seq<char>
    decreases files.len(),
{
    if files.len() == 0 {
        p
    } else if parse_path(files.last()) == parse_path(p) {
        files.last()
    } else {
        scanned_path(files.drop_last(), p)
    }
}

/// The edge that `mod m;` in `file` gives.
pub open spec fn mod_edge(
    root: PathView,
    file: Seq<char>,
    m: Seq<char>,
    set: Seq<Seq<char>>,
    all: Seq<Seq<char>>,
) -> Seq<
    ResolvedEdgeView,
> {
    match module_file(root, join(file_dir(root, file), parse_path(m)), set) {
        Some(t) => edge_to(file, scanned_path(all, target_path(root, t)), "mod "@ + m),
        None => Seq::empty(),
    }
}

/// The edge that the `use` path `p` in `file` gives.
pub open spec fn use_edge(
    root: PathView,
    file: Seq<char>,
    p: Seq<char>,
    set: Seq<Seq<char>>,
    all: Seq<Seq<char>>,
) -> Seq<
    ResolvedEdgeView,
> {
    let dir = file_dir(root, file);
    let src = match nearest_src(dir) {
        Some(s) => s,
        None => root,
    };
    match first_module_file(root, rust_candidates(src, dir, p), set) {
        Some(t) => edge_to(file, scanned_path(all, target_path(root, t)), p),
        None => Seq::empty(),
    }
}

/// The edges that the module declarations `names` of `file` give, in order.
pub open spec fn mod_edges(
    root: PathView,
    file: Seq<char>,
    names: Seq<Seq<char>>,
    set: Seq<Seq<char>>,
    all: Seq<Seq<char>>,
) -> Seq<
    ResolvedEdgeView,
>
    decreases names.len(),
{
    if names.len() == 0 {
        Seq::empty()
    } else {
        mod_edges(root, file, names.drop_last(), set, all) + mod_edge(root, file, names.last(), set, all)
    }
}

/// The edges that the `use` paths `paths` of `file` give, in order.
pub open spec fn use_edges(
    root: PathView,
    file: Seq<char>,
    paths: Seq<Seq<char>>,
    set: Seq<Seq<char>>,
    all: Seq<Seq<char>>,
) -> Seq<
    ResolvedEdgeView,
>
    decreases paths.len(),
{
    if paths.len() == 0 {
        Seq::empty()
    } else {
        use_edges(root, file, paths.drop_last(), set, all) + use_edge(root, file, paths.last(), set, all)
    }
}

/// The edges of `file`, whose syntax tree is `ns`, to the files `set`
/// (relative to `root`), each written as `all` writes it: those of its
/// module declarations, then those of its `use` paths.
pub open spec fn file_edges_spec(
    root: PathView,
    file: Seq<char>,
    ns: Seq<SyntaxNodeView>,
    set: Seq<Seq<char>>,
    all: Seq<Seq<char>>,
) -> Seq<ResolvedEdgeView> {
    mod_edges(root, file, module_names(ns, ns.len() as int), set, all) + use_edges(
        root,
        file,
        use_paths(ns, ns.len() as int),
        set,
        all,
    )
}

/// The scanned file (relative to `root`) that `candidate` names: the first
/// of the candidate itself, with `.rs` and with `/mod.rs` among `rel_set`.
pub fn resolve_rust_candidate(root: &PathModel, candidate: &PathModel, rel_set: &[String]) -> (res:
    Option<String>)
    ensures
        match res {
            Some(t) => module_file(root@, candidate@, names_of(rel_set@)) == Some(t@),
            None => module_file(root@, candidate@, names_of(rel_set@)) is None,
        },
{
    let base = match candidate.strip_prefix(root) {
        Some(rel) => rel.render(),
        None => candidate.render(),
    };
    let ghost opts = module_file_options(base@);
    let mut a = crate::text::slice_copy(&base, 0, base.len());
    let mut b = crate::text::slice_copy(&base, 0, base.len());
    let mut c = crate::text::slice_copy(&base, 0, base.len());
    append_chars(&mut b, &to_chars(".rs"));
    append_chars(&mut c, &to_chars("/mod.rs"));
    proof {
        assert(base@.subrange(0, base@.len() as int) =~= base@);
        assert(opts.drop_first() =~= seq![b@, c@]);
        assert(seq![b@, c@].drop_first() =~= seq![c@]);
        assert(seq![c@].drop_first() =~= Seq::<Seq<char>>::empty());
    }
    let ghost o1 = opts.drop_first();
    let ghost o2 = o1.drop_first();
    let ghost names = names_of(rel_set@);
    let sa = crate::text::from_chars(&a);
    proof {
        lemma_in_set_names(rel_set@, sa@);
    }
    if set_contains(rel_set, &sa) {
        return Some(sa);
    }
    proof {
        assert(first_listed(opts, names) == first_listed(o1, names));
    }
    let sb = crate::text::from_chars(&b);
    proof {
        lemma_in_set_names(rel_set@, sb@);
    }
    if set_contains(rel_set, &sb) {
        proof {
            assert(o1[0] == b@);
        }
        return Some(sb);
    }
    proof {
        assert(first_listed(o1, names) == first_listed(o2, names));
    }
    let sc = crate::text::from_chars(&c);
    proof {
        lemma_in_set_names(rel_set@, sc@);
    }
    if set_contains(rel_set, &sc) {
        proof {
            assert(o2[0] == c@);
        }
        return Some(sc);
    }
    proof {
        assert(first_listed(o2, names) == first_listed(o2.drop_first(), names));
    }
    None
}

/// The file that the first of `cands` naming one names.
fn first_module_file_exec(root: &PathModel, cands: &Vec<PathModel>, rel_set: &[String]) -> (res: Option<
    String,
>)
    ensures
        match res {
            Some(t) => first_module_file(root@, cands@.map_values(|p: PathModel| p@), names_of(rel_set@))
                == Some(t@),
            None => first_module_file(root@, cands@.map_values(|p: PathModel| p@), names_of(rel_set@)) is None,
        },
{
    let ghost cv = cands@.map_values(|p: PathModel| p@);
    let mut i: usize = 0;
    proof {
        assert(cv.skip(0) =~= cv);
    }
    while i < cands.len()
        invariant
            i <= cands@.len(),
            cv == cands@.map_values(|p: PathModel| p@),
            first_module_file(root@, cv, names_of(rel_set@)) == first_module_file(
                root@,
                cv.skip(i as int),
                names_of(rel_set@),
            ),
        decreases cands.len() - i,
    {
        proof {
            assert(cv.skip(i as int)[0] == cands@[i as int]@);
            assert(cv.skip(i as int).drop_first() =~= cv.skip(i + 1));
        }
        match resolve_rust_candidate(root, &cands[i], rel_set) {
            Some(t) => {
                return Some(t);
            },
            None => {},
        }
        i = i + 1;
    }
    None
}

/// The path `p` as `files` write it.
fn scanned_path_exec(files: &[String], p: String) -> (res: String)
    ensures
        res@ == scanned_path(names_of(files@), p@),
{
    let pm = PathModel::from_str(p.as_str());
    let mut i: usize = files.len();
    proof {
        assert(names_of(files@).take(files@.len() as int) =~= names_of(files@));
    }
    while i > 0
        invariant
            i <= files@.len(),
            pm@ == parse_path(p@),
            scanned_path(names_of(files@), p@) == scanned_path(names_of(files@).take(i as int), p@),
        decreases i,
    {
        let f = PathModel::from_str(files[i - 1].as_str());
        proof {
            let t = names_of(files@).take(i as int);
            assert(t.last() == files@[i - 1]@);
            assert(t.drop_last() =~= names_of(files@).take(i - 1));
        }
        if path_eq(&f, &pm) {
            return files[i - 1].clone();
        }
        i = i - 1;
    }
    proof {
        assert(names_of(files@).take(0) =~= Seq::<Seq<char>>::empty());
    }
    p
}

/// Adds an edge from `from` to `to` with `label`, unless both are the same
/// path.
pub fn push_edge(from: &str, to: String, label: String, edges: &mut Vec<ResolvedEdge>)
    ensures
        edges_view(final(edges)@) == edges_view(old(edges)@) + edge_to(from@, to@, label@),
{
    let a = PathModel::from_str(from);
    let b = PathModel::from_str(to.as_str());
    let ghost before = edges_view(edges@);
    if path_eq(&a, &b) {
        proof {
            assert(before + Seq::<ResolvedEdgeView>::empty() =~= before);
        }
        return;
    }
    let e = ResolvedEdge { from: from.to_string(), to, label, language: Language::Rust };
    edges.push(e);
    proof {
        assert(edges_view(edges@) =~= before + seq![e@]);
    }
}

/// The edges of `file`, whose syntax tree has the elements `nodes` in
/// pre-order, to the files `rel_set` (relative to `root`).
pub fn file_edges(
    root: &PathModel,
    file: &str,
    nodes: &Vec<SyntaxNode>,
    rel_set: &[String],
    files: &[String],
) -> (res: Vec<ResolvedEdge>)
    ensures
        edges_view(res@) == file_edges_spec(
            root@,
            file@,
            nodes_view(nodes@),
            names_of(rel_set@),
            names_of(files@),
        ),
{
    let ghost ns = nodes_view(nodes@);
    let fp = PathModel::from_str(file);
    let dir = match fp.parent() {
        Some(d) => d,
        None => root.copy(),
    };
    let names = module_names_exec(nodes);
    let ghost nv = names.deep_view();
    let mut edges: Vec<ResolvedEdge> = Vec::new();
    let mut k: usize = 0;
    proof {
        assert(nv.take(0) =~= Seq::<Seq<char>>::empty());
        assert(edges_view(edges@) =~= Seq::<ResolvedEdgeView>::empty());
    }
    while k < names.len()
        invariant
            k <= names@.len(),
            nv == names.deep_view(),
            nv == module_names(ns, ns.len() as int),
            dir@ == file_dir(root@, file@),
            edges_view(edges@) == mod_edges(root@, file@, nv.take(k as int), names_of(rel_set@), names_of(files@)),
        decreases names.len() - k,
    {
        let m = &names[k];
        proof {
            lemma_chars_deep_view(m);
            assert(nv.take(k + 1).drop_last() =~= nv.take(k as int));
            assert(nv.take(k + 1).last() == m@);
        }
        let cand = dir.join_chars(m);
        match resolve_rust_candidate(root, &cand, rel_set) {
            Some(t) => {
                let to = scanned_path_exec(files, root.join_chars(&to_chars(t.as_str())).display());
                let mut label = to_chars("mod ");
                append_chars(&mut label, m);
                push_edge(file, to, crate::text::from_chars(&label), &mut edges);
            },
            None => {},
        }
        k = k + 1;
    }
    proof {
        assert(nv.take(names@.len() as int) =~= nv);
    }
    let ghost me = edges_view(edges@);
    let paths = use_paths_exec(nodes);
    let ghost pv = paths.deep_view();
    let src = match nearest_src_dir(&dir) {
        Some(s) => s,
        None => root.copy(),
    };
    let mut j: usize = 0;
    proof {
        assert(pv.take(0) =~= Seq::<Seq<char>>::empty());
        assert(me + Seq::<ResolvedEdgeView>::empty() =~= me);
    }
    while j < paths.len()
        invariant
            j <= paths@.len(),
            pv == paths.deep_view(),
            pv == use_paths(ns, ns.len() as int),
            dir@ == file_dir(root@, file@),
            src@ == match nearest_src(dir@) {
                Some(s) => s,
                None => root@,
            },
            me == mod_edges(
                root@,
                file@,
                module_names(ns, ns.len() as int),
                names_of(rel_set@),
                names_of(files@),
            ),
            edges_view(edges@) == me + use_edges(
                root@,
                file@,
                pv.take(j as int),
                names_of(rel_set@),
                names_of(files@),
            ),
        decreases paths.len() - j,
    {
        let p = &paths[j];
        proof {
            lemma_chars_deep_view(p);
            assert(pv.take(j + 1).drop_last() =~= pv.take(j as int));
            assert(pv.take(j + 1).last() == p@);
        }
        let cands = rust_path_candidates(&src, &dir, p);
        let ghost before = edges_view(edges@);
        match first_module_file_exec(root, &cands, rel_set) {
            Some(t) => {
                let to = scanned_path_exec(files, root.join_chars(&to_chars(t.as_str())).display());
                push_edge(file, to, crate::text::from_chars(p), &mut edges);
            },
            None => {},
        }
        proof {
            assert(before + use_edge(root@, file@, p@, names_of(rel_set@), names_of(files@)) =~= me
                + (use_edges(root@, file@, pv.take(j as int), names_of(rel_set@), names_of(files@))
                + use_edge(root@, file@, p@, names_of(rel_set@), names_of(files@))));
        }
        j = j + 1;
    }
    proof {
        assert(pv.take(paths@.len() as int) =~= pv);
    }
    edges
}

/// The paths of `files` relative to `root`.
pub open spec fn relative_names(root: Seq<char>, files: Seq<Seq<char>>) -> Seq<Seq<char>> {
    files.map_values(|f: Seq<char>| relative_text(root, f))
}

/// The edges of the first `n` of `files`, found from their syntax, to one
/// another, in order; or the first of them whose text `fs` does not hold.
pub open spec fn fallback_upto(root: Seq<char>, files: Seq<Seq<char>>, fs: FileSystemView, n: int) -> Result<
    Seq<ResolvedEdgeView>,
    Seq<char>,
>
    decreases n,
{
    if n <= 0 {
        Ok(Seq::empty())
    } else {
        match fallback_upto(root, files, fs, n - 1) {
            Err(e) => Err(e),
            Ok(es) => match read_text(fs.contents@, render(parse_path(files[n - 1]))) {
                None => Err(files[n - 1]),
                Some(src) => Ok(
                    es + file_edges_spec(
                        parse_path(root),
                        files[n - 1],
                        rust_syntax_of(src),
                        relative_names(root, files),
                        files,
                    ),
                ),
            },
        }
    }
}

proof fn lemma_fallback_err(root: Seq<char>, files: Seq<Seq<char>>, fs: FileSystemView, n: int, m: int)
    requires
        0 <= n <= m,
        fallback_upto(root, files, fs, n) is Err,
    ensures
        fallback_upto(root, files, fs, m) == fallback_upto(root, files, fs, n),
    decreases m - n,
{
    if m > n {
        lemma_fallback_err(root, files, fs, n, m - 1);
    }
}

/// The paths of `files` relative to `root`.
fn relative_set(root: &str, files: &[String]) -> (res: Vec<String>)
    ensures
        names_of(res@) == relative_names(root@, names_of(files@)),
{
    let mut out: Vec<String> = Vec::new();
    let mut i: usize = 0;
    while i < files.len()
        invariant
            i <= files@.len(),
            names_of(out@) == relative_names(root@, names_of(files@)).take(i as int),
        decreases files.len() - i,
    {
        let r = relative_path(root, files[i].as_str());
        let ghost before = names_of(out@);
        out.push(r);
        proof {
            assert(names_of(out@) =~= before.push(r@));
            assert(relative_names(root@, names_of(files@)).take(i + 1) =~= relative_names(
                root@,
                names_of(files@),
            ).take(i as int).push(relative_text(root@, files@[i as int]@)));
        }
        i = i + 1;
    }
    proof {
        assert(relative_names(root@, names_of(files@)).take(files@.len() as int) =~= relative_names(
            root@,
            names_of(files@),
        ));
    }
    out
}

/// The edges among `files`, found from the syntax of each: the files that
/// their `mod name;` declarations and `use` paths name among `files`.
pub fn fallback_edges(root: &str, files: &[String], fs: &FileSystemView) -> (res: Result<
    Vec<ResolvedEdge>,
    BackendError,
>)
    ensures
        match res {
            Ok(v) => fallback_upto(root@, names_of(files@), *fs, files@.len() as int) == Ok::<
                _,
                Seq<char>,
            >(edges_view(v@)),
            Err(BackendError::Unreadable(p)) => fallback_upto(
                root@,
                names_of(files@),
                *fs,
                files@.len() as int,
            ) == Err::<Seq<ResolvedEdgeView>, _>(p@),
        },
{
    let ghost fv = names_of(files@);
    let rp = PathModel::from_str(root);
    let rel_set = relative_set(root, files);
    let mut edges: Vec<ResolvedEdge> = Vec::new();
    let mut i: usize = 0;
    proof {
        assert(edges_view(edges@) =~= Seq::<ResolvedEdgeView>::empty());
    }
    while i < files.len()
        invariant
            i <= files@.len(),
            fv == names_of(files@),
            rp@ == parse_path(root@),
            names_of(rel_set@) == relative_names(root@, fv),
            fallback_upto(root@, fv, *fs, i as int) == Ok::<_, Seq<char>>(edges_view(edges@)),
        decreases files.len() - i,
    {
        let file = &files[i];
        proof {
            assert(fv[i as int] == file@);
        }
        let source = match read_file(fs, &PathModel::from_str(file.as_str())) {
            Some(t) => t,
            None => {
                proof {
                    lemma_fallback_err(root@, fv, *fs, i + 1, files@.len() as int);
                }
                return Err(BackendError::Unreadable(file.clone()));
            },
        };
        let nodes = rust_syntax_tree(source.as_str());
        let more = file_edges(&rp, file.as_str(), &nodes, &rel_set, files);
        let mut more = more;
        let ghost before = edges_view(edges@);
        let ghost mv = edges_view(more@);
        let ghost ev = edges@;
        let ghost mo = more@;
        edges.append(&mut more);
        proof {
            assert(edges@ =~= ev + mo);
            assert(edges_view(edges@) =~= before + mv);
        }
        i = i + 1;
    }
    Ok(edges)
}

/// Whether two edges join the same paths under the same label.
pub open spec fn same_edge(a: ResolvedEdgeView, b: ResolvedEdgeView) -> bool {
    parse_path(a.from) == parse_path(b.from) && parse_path(a.to) == parse_path(b.to) && a.label
        == b.label
}

/// Whether `es` holds an edge like `e`.
pub open spec fn has_edge_like(es: Seq<ResolvedEdgeView>, e: ResolvedEdgeView) -> bool {
    exists|k: int| 0 <= k < es.len() && same_edge(#[trigger] es[k], e)
}

/// `es` without an edge like one before it.
pub open spec fn dedup_edges_spec(es: Seq<ResolvedEdgeView>) -> Seq<ResolvedEdgeView>
    decreases es.len(),
{
    if es.len() == 0 {
        es
    } else {
        let d = dedup_edges_spec(es.drop_last());
        if has_edge_like(d, es.last()) {
            d
        } else {
            d.push(es.last())
        }
    }
}

/// A copy of an edge.
fn copy_edge(e: &ResolvedEdge) -> (res: ResolvedEdge)
    ensures
        res@ == e@,
{
    ResolvedEdge {
        from: e.from.clone(),
        to: e.to.clone(),
        label: e.label.clone(),
        language: e.language,
    }
}

/// The edges of `edges` without one like an edge before it, in order.
pub fn dedup_edges(edges: Vec<ResolvedEdge>) -> (res: Vec<ResolvedEdge>)
    ensures
        edges_view(res@) == dedup_edges_spec(edges_view(edges@)),
{
    let ghost ev = edges_view(edges@);
    let mut out: Vec<ResolvedEdge> = Vec::new();
    let mut keys: Vec<(PathModel, PathModel)> = Vec::new();
    let mut i: usize = 0;
    proof {
        assert(ev.take(0) =~= Seq::<ResolvedEdgeView>::empty());
        assert(edges_view(out@) =~= Seq::<ResolvedEdgeView>::empty());
    }
    while i < edges.len()
        invariant
            i <= edges@.len(),
            ev == edges_view(edges@),
            edges_view(out@) == dedup_edges_spec(ev.take(i as int)),
            keys@.len() == out@.len(),
            forall|k: int|
                0 <= k < keys@.len() ==> (#[trigger] keys@[k]).0@ == parse_path(out@[k].from@)
                    && keys@[k].1@ == parse_path(out@[k].to@),
        decreases edges.len() - i,
    {
        let e = &edges[i];
        let from = PathModel::from_str(e.from.as_str());
        let to = PathModel::from_str(e.to.as_str());
        let ghost d = edges_view(out@);
        proof {
            assert(ev.take(i + 1).drop_last() =~= ev.take(i as int));
            assert(ev.take(i + 1).last() == e@);
        }
        let mut seen = false;
        let mut k: usize = 0;
        while k < out.len()
            invariant
                k <= out@.len(),
                d == edges_view(out@),
                keys@.len() == out@.len(),
                from@ == parse_path(e@.from),
                to@ == parse_path(e@.to),
                forall|q: int|
                    0 <= q < keys@.len() ==> (#[trigger] keys@[q]).0@ == parse_path(out@[q].from@)
                        && keys@[q].1@ == parse_path(out@[q].to@),
                seen ==> has_edge_like(d, e@),
                !seen ==> forall|q: int| 0 <= q < k ==> !same_edge(#[trigger] d[q], e@),
            decreases out.len() - k,
        {
            if !seen && path_eq(&keys[k].0, &from) && path_eq(&keys[k].1, &to) && out[k].label
                == e.label {
                seen = true;
                proof {
                    assert(same_edge(d[k as int], e@));
                }
            }
            k = k + 1;
        }
        if !seen {
            let c = copy_edge(e);
            out.push(c);
            keys.push((from, to));
            proof {
                assert(edges_view(out@) =~= d.push(e@));
            }
        }
        i = i + 1;
    }
    proof {
        assert(ev.take(edges@.len() as int) =~= ev);
    }
    out
}

/// The manifest nearest to `p`: `Cargo.toml` in `p` itself or in the
/// nearest of its ancestors that holds one.
pub open spec fn nearest_manifest_spec(fs: FileSystemView, p: PathView) -> Option<PathView>
    decreases p.parts.len(),
{
    let m = join(p, parse_path("Cargo.toml"@));
    if is_file(fs, m) {
        Some(m)
    } else {
        match parent(p) {
            Some(q) => nearest_manifest_spec(fs, q),
            None => None,
        }
    }
}

/// The manifest of the file `f`, written as a path.
pub open spec fn manifest_of(fs: FileSystemView, f: Seq<char>) -> Option<Seq<char>> {
    match nearest_manifest_spec(fs, parse_path(f)) {
        Some(m) => Some(render(m)),
        None => None,
    }
}

/// The files of `files` without a manifest, in order.
pub open spec fn standalone_files(fs: FileSystemView, files: Seq<Seq<char>>) -> Seq<Seq<char>>
    decreases files.len(),
{
    if files.len() == 0 {
        files
    } else if manifest_of(fs, files.last()) is None {
        standalone_files(fs, files.drop_last()).push(files.last())
    } else {
        standalone_files(fs, files.drop_last())
    }
}

/// The manifests of `files`, each once, in the order they first occur.
pub open spec fn manifest_keys(fs: FileSystemView, files: Seq<Seq<char>>) -> Seq<Seq<char>>
    decreases files.len(),
{
    if files.len() == 0 {
        Seq::empty()
    } else {
        let k = manifest_keys(fs, files.drop_last());
        match manifest_of(fs, files.last()) {
            Some(m) => if k.contains(m) {
                k
            } else {
                k.push(m)
            },
            None => k,
        }
    }
}

/// The files of `files` whose manifest is `key`, in order.
pub open spec fn manifest_members(fs: FileSystemView, files: Seq<Seq<char>>, key: Seq<char>) -> Seq<
    Seq<char>,
>
    decreases files.len(),
{
    if files.len() == 0 {
        files
    } else if manifest_of(fs, files.last()) == Some(key) {
        manifest_members(fs, files.drop_last(), key).push(files.last())
    } else {
        manifest_members(fs, files.drop_last(), key)
    }
}

/// The manifest nearest to `p`.
pub fn nearest_manifest(p: &PathModel, fs: &FileSystemView) -> (res: Option<PathModel>)
    ensures
        match res {
            Some(m) => nearest_manifest_spec(*fs, p@) == Some(m@),
            None => nearest_manifest_spec(*fs, p@) is None,
        },
{
    let name = PathModel::from_str("Cargo.toml");
    let mut cur = p.copy();
    loop
        invariant
            name@ == parse_path("Cargo.toml"@),
            nearest_manifest_spec(*fs, cur@) == nearest_manifest_spec(*fs, p@),
        decreases cur@.parts.len(),
    {
        let m = cur.join(&name);
        if exists_file(fs, &m) {
            return Some(m);
        }
        match cur.parent() {
            Some(q) => {
                cur = q;
            },
            None => {
                return None;
            },
        }
    }
}

fn manifest_text(fs: &FileSystemView, f: &String) -> (res: Option<String>)
    ensures
        match res {
            Some(m) => manifest_of(*fs, f@) == Some(m@),
            None => manifest_of(*fs, f@) is None,
        },
{
    let p = PathModel::from_str(f.as_str());
    match nearest_manifest(&p, fs) {
        Some(m) => Some(m.to_string_path()),
        None => None,
    }
}

/// Whether `key` is one of `v`.
fn listed(v: &Vec<String>, key: &String) -> (res: bool)
    ensures
        res == names_of(v@).contains(key@),
{
    let mut i: usize = 0;
    while i < v.len()
        invariant
            i <= v@.len(),
            forall|k: int| 0 <= k < i ==> names_of(v@)[k] != key@,
        decreases v.len() - i,
    {
        if v[i] == *key {
            proof {
                assert(names_of(v@)[i as int] == key@);
            }
            return true;
        }
        i = i + 1;
    }
    false
}

/// The files grouped by their nearest manifest, the manifests in the order
/// they first occur, and the files without a manifest.
pub fn manifest_groups(files: &[String], fs: &FileSystemView) -> (res: (
    Vec<(String, Vec<String>)>,
    Vec<String>,
))
    ensures
        res.0@.len() == manifest_keys(*fs, names_of(files@)).len(),
        forall|j: int|
            0 <= j < res.0@.len() ==> (#[trigger] res.0@[j]).0@ == manifest_keys(
                *fs,
                names_of(files@),
            )[j] && names_of(res.0@[j].1@) == manifest_members(
                *fs,
                names_of(files@),
                manifest_keys(*fs, names_of(files@))[j],
            ),
        names_of(res.1@) == standalone_files(*fs, names_of(files@)),
{
    let ghost fv = names_of(files@);
    let mut ms: Vec<Option<String>> = Vec::new();
    let mut keys: Vec<String> = Vec::new();
    let mut alone: Vec<String> = Vec::new();
    let mut i: usize = 0;
    proof {
        assert(fv.take(0) =~= Seq::<Seq<char>>::empty());
        assert(names_of(keys@) =~= Seq::<Seq<char>>::empty());
        assert(names_of(alone@) =~= Seq::<Seq<char>>::empty());
    }
    while i < files.len()
        invariant
            i <= files@.len(),
            fv == names_of(files@),
            ms@.len() == i,
            forall|k: int|
                0 <= k < i ==> match #[trigger] ms@[k] {
                    Some(m) => manifest_of(*fs, fv[k]) == Some(m@),
                    None => manifest_of(*fs, fv[k]) is None,
                },
            names_of(keys@) == manifest_keys(*fs, fv.take(i as int)),
            names_of(alone@) == standalone_files(*fs, fv.take(i as int)),
        decreases files.len() - i,
    {
        let m = manifest_text(fs, &files[i]);
        proof {
            assert(fv.take(i + 1).drop_last() =~= fv.take(i as int));
            assert(fv.take(i + 1).last() == files@[i as int]@);
        }
        let ghost kb = names_of(keys@);
        let ghost ab = names_of(alone@);
        match &m {
            Some(t) => {
                if !listed(&keys, t) {
                    keys.push(t.clone());
                    proof {
                        assert(names_of(keys@) =~= kb.push(t@));
                    }
                }
            },
            None => {
                alone.push(files[i].clone());
                proof {
                    assert(names_of(alone@) =~= ab.push(files@[i as int]@));
                }
            },
        }
        ms.push(m);
        i = i + 1;
    }
    proof {
        assert(fv.take(files@.len() as int) =~= fv);
    }
    let ghost kv = names_of(keys@);
    let mut groups: Vec<(String, Vec<String>)> = Vec::new();
    let mut j: usize = 0;
    while j < keys.len()
        invariant
            j <= keys@.len(),
            fv == names_of(files@),
            kv == names_of(keys@),
            kv == manifest_keys(*fs, fv),
            ms@.len() == files@.len(),
            forall|k: int|
                0 <= k < files@.len() ==> match #[trigger] ms@[k] {
                    Some(m) => manifest_of(*fs, fv[k]) == Some(m@),
                    None => manifest_of(*fs, fv[k]) is None,
                },
            groups@.len() == j,
            forall|q: int|
                0 <= q < j ==> (#[trigger] groups@[q]).0@ == kv[q] && names_of(groups@[q].1@)
                    == manifest_members(*fs, fv, kv[q]),
        decreases keys.len() - j,
    {
        let key = &keys[j];
        proof {
            assert(kv[j as int] == key@);
        }
        let mut members: Vec<String> = Vec::new();
        let mut k: usize = 0;
        proof {
            assert(names_of(members@) =~= Seq::<Seq<char>>::empty());
            assert(fv.take(0) =~= Seq::<Seq<char>>::empty());
        }
        while k < files.len()
            invariant
                k <= files@.len(),
                fv == names_of(files@),
                ms@.len() == files@.len(),
                forall|q: int|
                    0 <= q < files@.len() ==> match #[trigger] ms@[q] {
                        Some(m) => manifest_of(*fs, fv[q]) == Some(m@),
                        None => manifest_of(*fs, fv[q]) is None,
                    },
                names_of(members@) == manifest_members(*fs, fv.take(k as int), key@),
            decreases files.len() - k,
        {
            proof {
                assert(fv.take(k + 1).drop_last() =~= fv.take(k as int));
                assert(fv.take(k + 1).last() == files@[k as int]@);
            }
            let ghost mb = names_of(members@);
            let hit = match &ms[k] {
                Some(m) => *m == *key,
                None => false,
            };
            if hit {
                members.push(files[k].clone());
                proof {
                    assert(names_of(members@) =~= mb.push(files@[k as int]@));
                }
            }
            k = k + 1;
        }
        proof {
            assert(fv.take(files@.len() as int) =~= fv);
        }
        groups.push((key.clone(), members));
        j = j + 1;
    }
    (groups, alone)
}

/// What `semantic_edges` gives: the edges `workspace` found for the files
/// under a manifest, then those found from the syntax of the other files,
/// without an edge like one before it; or the first of the other files
/// whose text is not available.
pub open spec fn semantic_edges_spec(
    root: Seq<char>,
    files: Seq<Seq<char>>,
    fs: FileSystemView,
    workspace: Seq<ResolvedEdgeView>,
) -> Result<Seq<ResolvedEdgeView>, Seq<char>> {
    let alone = standalone_files(fs, files);
    match fallback_upto(root, alone, fs, alone.len() as int) {
        Err(p) => Err(p),
        Ok(es) => Ok(dedup_edges_spec(workspace + es)),
    }
}

/// The dependency edges among the Rust `files` under `root`: the edges
/// `workspace` that rust-analyzer found for the files under a manifest,
/// then those found from the syntax of the files without one, each like
/// edge once.
pub fn semantic_edges(root: &str, files: &[String], fs: &FileSystemView, workspace: &[ResolvedEdge]) -> (res:
    Result<Vec<ResolvedEdge>, BackendError>)
    ensures
        match res {
            Ok(v) => semantic_edges_spec(root@, names_of(files@), *fs, edges_view(workspace@)) == Ok::<
                _,
                Seq<char>,
            >(edges_view(v@)),
            Err(BackendError::Unreadable(p)) => semantic_edges_spec(
                root@,
                names_of(files@),
                *fs,
                edges_view(workspace@),
            ) == Err::<Seq<ResolvedEdgeView>, _>(p@),
        },
{
    let (_groups, alone) = manifest_groups(files, fs);
    let found = match fallback_edges(root, &alone, fs) {
        Ok(v) => v,
        Err(e) => {
            return Err(e);
        },
    };
    let mut all: Vec<ResolvedEdge> = Vec::new();
    let mut i: usize = 0;
    proof {
        assert(edges_view(workspace@).take(0) =~= Seq::<ResolvedEdgeView>::empty());
        assert(edges_view(all@) =~= Seq::<ResolvedEdgeView>::empty());
    }
    while i < workspace.len()
        invariant
            i <= workspace@.len(),
            edges_view(all@) == edges_view(workspace@).take(i as int),
        decreases workspace.len() - i,
    {
        let ghost before = edges_view(all@);
        all.push(copy_edge(&workspace[i]));
        proof {
            assert(edges_view(all@) =~= before.push(workspace@[i as int]@));
            assert(edges_view(workspace@).take(i + 1) =~= edges_view(workspace@).take(i as int).push(
                workspace@[i as int]@,
            ));
        }
        i = i + 1;
    }
    proof {
        assert(edges_view(workspace@).take(workspace@.len() as int) =~= edges_view(workspace@));
    }
    let mut found = found;
    let ghost a = all@;
    let ghost f = found@;
    all.append(&mut found);
    proof {
        assert(all@ =~= a + f);
        assert(edges_view(all@) =~= edges_view(a) + edges_view(f));
    }
    Ok(dedup_edges(all))
}

/// Whether no edge of `es` joins a path to itself.
pub open spec fn no_self_edges(es: Seq<ResolvedEdgeView>) -> bool {
    forall|k: int| 0 <= k < es.len() ==> parse_path((#[trigger] es[k]).from) != parse_path(es[k].to)
}

proof fn lemma_no_self_concat(a: Seq<ResolvedEdgeView>, b: Seq<ResolvedEdgeView>)
    requires
        no_self_edges(a),
        no_self_edges(b),
    ensures
        no_self_edges(a + b),
{
    assert forall|k: int| 0 <= k < (a + b).len() implies parse_path((#[trigger] (a + b)[k]).from)
        != parse_path((a + b)[k].to) by {
        if k < a.len() {
            assert((a + b)[k] == a[k]);
        } else {
            assert((a + b)[k] == b[k - a.len()]);
        }
    }
}

proof fn lemma_file_edges_no_self(
    root: PathView,
    file: Seq<char>,
    ns: Seq<SyntaxNodeView>,
    set: Seq<Seq<char>>,
    all: Seq<Seq<char>>,
)
    ensures
        no_self_edges(file_edges_spec(root, file, ns, set, all)),
{
    lemma_mod_edges_no_self(root, file, module_names(ns, ns.len() as int), set, all);
    lemma_use_edges_no_self(root, file, use_paths(ns, ns.len() as int), set, all);
    lemma_no_self_concat(
        mod_edges(root, file, module_names(ns, ns.len() as int), set, all),
        use_edges(root, file, use_paths(ns, ns.len() as int), set, all),
    );
}

proof fn lemma_mod_edges_no_self(
    root: PathView,
    file: Seq<char>,
    names: Seq<Seq<char>>,
    set: Seq<Seq<char>>,
    all: Seq<Seq<char>>,
)
    ensures
        no_self_edges(mod_edges(root, file, names, set, all)),
    decreases names.len(),
{
    if names.len() > 0 {
        lemma_mod_edges_no_self(root, file, names.drop_last(), set, all);
        lemma_no_self_concat(
            mod_edges(root, file, names.drop_last(), set, all),
            mod_edge(root, file, names.last(), set, all),
        );
    }
}

proof fn lemma_use_edges_no_self(
    root: PathView,
    file: Seq<char>,
    paths: Seq<Seq<char>>,
    set: Seq<Seq<char>>,
    all: Seq<Seq<char>>,
)
    ensures
        no_self_edges(use_edges(root, file, paths, set, all)),
    decreases paths.len(),
{
    if paths.len() > 0 {
        lemma_use_edges_no_self(root, file, paths.drop_last(), set, all);
        lemma_no_self_concat(
            use_edges(root, file, paths.drop_last(), set, all),
            use_edge(root, file, paths.last(), set, all),
        );
    }
}

proof fn lemma_fallback_no_self(root: Seq<char>, files: Seq<Seq<char>>, fs: FileSystemView, n: int)
    ensures
        fallback_upto(root, files, fs, n) matches Ok(es) ==> no_self_edges(es),
    decreases n,
{
    if n > 0 {
        lemma_fallback_no_self(root, files, fs, n - 1);
        match fallback_upto(root, files, fs, n - 1) {
            Ok(es) => match read_text(fs.contents@, render(parse_path(files[n - 1]))) {
                Some(src) => {
                    lemma_file_edges_no_self(
                        parse_path(root),
                        files[n - 1],
                        rust_syntax_of(src),
                        relative_names(root, files),
                        files,
                    );
                    lemma_no_self_concat(
                        es,
                        file_edges_spec(
                            parse_path(root),
                            files[n - 1],
                            rust_syntax_of(src),
                            relative_names(root, files),
                            files,
                        ),
                    );
                },
                None => {},
            },
            Err(_) => {},
        }
    }
}

/// `dedup_edges` keeps, in order, the first of each group of like edges:
/// no two edges it keeps are alike, every edge given has a like one kept,
/// and every kept edge was given.
pub proof fn law_dedup_edges(es: Seq<ResolvedEdgeView>)
    ensures
        forall|i: int, j: int|
            0 <= i < j < dedup_edges_spec(es).len() ==> !same_edge(
                #[trigger] dedup_edges_spec(es)[i],
                #[trigger] dedup_edges_spec(es)[j],
            ),
        forall|k: int| 0 <= k < es.len() ==> has_edge_like(dedup_edges_spec(es), #[trigger] es[k]),
        forall|k: int| 0 <= k < dedup_edges_spec(es).len() ==> es.contains(#[trigger] dedup_edges_spec(es)[k]),
    decreases es.len(),
{
    if es.len() > 0 {
        let p = es.drop_last();
        law_dedup_edges(p);
        let d = dedup_edges_spec(p);
        let r = dedup_edges_spec(es);
        let e = es.last();
        if !has_edge_like(d, e) {
            assert forall|i: int, j: int| 0 <= i < j < r.len() implies !same_edge(#[trigger] r[i], #[trigger] r[j]) by {
                if j == d.len() {
                    assert(r[i] == d[i]);
                    assert(r[j] == e);
                    if same_edge(d[i], e) {
                        assert(has_edge_like(d, e));
                    }
                } else {
                    assert(r[i] == d[i] && r[j] == d[j]);
                }
            }
        }
        assert forall|k: int| 0 <= k < es.len() implies has_edge_like(r, #[trigger] es[k]) by {
            if k < es.len() - 1 {
                assert(es[k] == p[k]);
                assert(has_edge_like(d, p[k]));
                let q = choose|q: int| 0 <= q < d.len() && same_edge(#[trigger] d[q], p[k]);
                assert(r[q] == d[q]);
            } else if has_edge_like(d, e) {
                let q = choose|q: int| 0 <= q < d.len() && same_edge(#[trigger] d[q], e);
                assert(r[q] == d[q]);
            } else {
                assert(r[d.len() as int] == e);
                assert(same_edge(r[d.len() as int], es[k]));
            }
        }
        assert forall|k: int| 0 <= k < r.len() implies es.contains(#[trigger] r[k]) by {
            if k < d.len() {
                assert(r[k] == d[k]);
                assert(p.contains(d[k]));
                let q = choose|q: int| 0 <= q < p.len() && p[q] == d[k];
                assert(es[q] == p[q]);
            } else {
                assert(r[k] == es[es.len() - 1]);
            }
        }
    }
}

/// No edge found from the syntax of files joins a file to itself; so
/// neither does one that `semantic_edges` gives when none of `workspace`
/// does.
pub proof fn law_no_self_edges(
    root: Seq<char>,
    files: Seq<Seq<char>>,
    fs: FileSystemView,
    workspace: Seq<ResolvedEdgeView>,
)
    requires
        no_self_edges(workspace),
    ensures
        semantic_edges_spec(root, files, fs, workspace) matches Ok(es) ==> no_self_edges(es),
{
    let alone = standalone_files(fs, files);
    lemma_fallback_no_self(root, alone, fs, alone.len() as int);
    match fallback_upto(root, alone, fs, alone.len() as int) {
        Ok(es) => {
            lemma_no_self_concat(workspace, es);
            law_dedup_edges(workspace + es);
            let r = dedup_edges_spec(workspace + es);
            assert forall|k: int| 0 <= k < r.len() implies parse_path((#[trigger] r[k]).from) != parse_path(
                r[k].to,
            ) by {
                assert((workspace + es).contains(r[k]));
                let q = choose|q: int| 0 <= q < (workspace + es).len() && (workspace + es)[q] == r[k];
            }
        },
        Err(_) => {},
    }
}

/// Whether both ends of every edge of `es` are among `files`.
pub open spec fn ends_listed(es: Seq<ResolvedEdgeView>, files: Seq<Seq<char>>) -> bool {
    forall|k: int|
        0 <= k < es.len() ==> files.contains((#[trigger] es[k]).from) && files.contains(es[k].to)
}

/// Whether every one of `files` lies under `root`.
pub open spec fn under_root(root: Seq<char>, files: Seq<Seq<char>>) -> bool {
    forall|j: int|
        0 <= j < files.len() ==> strip_prefix_path(parse_path(#[trigger] files[j]), parse_path(root))
            is Some
}

proof fn lemma_ends_concat(a: Seq<ResolvedEdgeView>, b: Seq<ResolvedEdgeView>, files: Seq<Seq<char>>)
    requires
        ends_listed(a, files),
        ends_listed(b, files),
    ensures
        ends_listed(a + b, files),
{
    assert forall|k: int| 0 <= k < (a + b).len() implies files.contains((#[trigger] (a + b)[k]).from)
        && files.contains((a + b)[k].to) by {
        if k < a.len() {
            assert((a + b)[k] == a[k]);
        } else {
            assert((a + b)[k] == b[k - a.len()]);
        }
    }
}

proof fn lemma_first_listed_in(opts: Seq<Seq<char>>, set: Seq<Seq<char>>)
    ensures
        first_listed(opts, set) matches Some(t) ==> set.contains(t),
    decreases opts.len(),
{
    if opts.len() > 0 && !set.contains(opts[0]) {
        lemma_first_listed_in(opts.drop_first(), set);
    }
}

proof fn lemma_first_module_file_in(root: PathView, cands: Seq<PathView>, set: Seq<Seq<char>>)
    ensures
        first_module_file(root, cands, set) matches Some(t) ==> set.contains(t),
    decreases cands.len(),
{
    if cands.len() > 0 {
        lemma_first_listed_in(module_file_options(candidate_base(root, cands[0])), set);
        lemma_first_module_file_in(root, cands.drop_first(), set);
    }
}

proof fn lemma_scanned_listed(all: Seq<Seq<char>>, p: Seq<char>, j: int)
    requires
        0 <= j < all.len(),
        parse_path(all[j]) == parse_path(p),
    ensures
        all.contains(scanned_path(all, p)),
    decreases all.len(),
{
    if parse_path(all.last()) == parse_path(p) {
        assert(all[all.len() - 1] == all.last());
    } else {
        let front = all.drop_last();
        assert(front[j] == all[j]);
        lemma_scanned_listed(front, p, j);
        let i = choose|i: int| 0 <= i < front.len() && front[i] == scanned_path(front, p);
        assert(all[i] == front[i]);
    }
}

/// The scanned file that a relative name of a file under `root` points to
/// is one of the files.
proof fn lemma_target_listed(root: Seq<char>, files: Seq<Seq<char>>, t: Seq<char>)
    requires
        under_root(root, files),
        relative_names(root, files).contains(t),
    ensures
        files.contains(scanned_path(files, target_path(parse_path(root), t))),
{
    let j = choose|j: int| 0 <= j < relative_names(root, files).len() && relative_names(root, files)[j] == t;
    let f = files[j];
    let pf = parse_path(f);
    let r = parse_path(root);
    assert(strip_prefix_path(pf, r) is Some);
    lemma_parse_wf(f);
    lemma_parse_wf(root);
    lemma_strip_join(pf, r);
    let rel = strip_prefix_path(pf, r)->0;
    assert(t == render(rel));
    assert(render(rel) == display(rel));
    lemma_parse_display(rel);
    lemma_parse_display(pf);
    lemma_scanned_listed(files, target_path(r, t), j);
}

proof fn lemma_edge_to_listed(from: Seq<char>, to: Seq<char>, label: Seq<char>, files: Seq<Seq<char>>)
    requires
        files.contains(from),
        files.contains(to),
    ensures
        ends_listed(edge_to(from, to, label), files),
{
}

proof fn lemma_mod_edges_listed(root: Seq<char>, file: Seq<char>, names: Seq<Seq<char>>, files: Seq<Seq<char>>)
    requires
        under_root(root, files),
        files.contains(file),
    ensures
        ends_listed(mod_edges(parse_path(root), file, names, relative_names(root, files), files), files),
    decreases names.len(),
{
    if names.len() > 0 {
        let r = parse_path(root);
        let set = relative_names(root, files);
        let m = names.last();
        lemma_mod_edges_listed(root, file, names.drop_last(), files);
        lemma_first_listed_in(
            module_file_options(candidate_base(r, join(file_dir(r, file), parse_path(m)))),
            set,
        );
        match module_file(r, join(file_dir(r, file), parse_path(m)), set) {
            Some(t) => {
                lemma_target_listed(root, files, t);
                lemma_edge_to_listed(file, scanned_path(files, target_path(r, t)), "mod "@ + m, files);
            },
            None => {},
        }
        lemma_ends_concat(
            mod_edges(r, file, names.drop_last(), set, files),
            mod_edge(r, file, m, set, files),
            files,
        );
    }
}

proof fn lemma_use_edges_listed(root: Seq<char>, file: Seq<char>, paths: Seq<Seq<char>>, files: Seq<Seq<char>>)
    requires
        under_root(root, files),
        files.contains(file),
    ensures
        ends_listed(use_edges(parse_path(root), file, paths, relative_names(root, files), files), files),
    decreases paths.len(),
{
    if paths.len() > 0 {
        let r = parse_path(root);
        let set = relative_names(root, files);
        let p = paths.last();
        lemma_use_edges_listed(root, file, paths.drop_last(), files);
        let dir = file_dir(r, file);
        let src = match nearest_src(dir) {
            Some(s) => s,
            None => r,
        };
        lemma_first_module_file_in(r, rust_candidates(src, dir, p), set);
        match first_module_file(r, rust_candidates(src, dir, p), set) {
            Some(t) => {
                lemma_target_listed(root, files, t);
                lemma_edge_to_listed(file, scanned_path(files, target_path(r, t)), p, files);
            },
            None => {},
        }
        lemma_ends_concat(
            use_edges(r, file, paths.drop_last(), set, files),
            use_edge(r, file, p, set, files),
            files,
        );
    }
}

proof fn lemma_fallback_listed(root: Seq<char>, files: Seq<Seq<char>>, fs: FileSystemView, n: int)
    requires
        under_root(root, files),
        n <= files.len(),
    ensures
        fallback_upto(root, files, fs, n) matches Ok(es) ==> ends_listed(es, files),
    decreases n,
{
    if n > 0 {
        lemma_fallback_listed(root, files, fs, n - 1);
        match fallback_upto(root, files, fs, n - 1) {
            Ok(es) => match read_text(fs.contents@, render(parse_path(files[n - 1]))) {
                Some(src) => {
                    let r = parse_path(root);
                    let f = files[n - 1];
                    let ns = rust_syntax_of(src);
                    let set = relative_names(root, files);
                    assert(files.contains(f));
                    lemma_mod_edges_listed(root, f, module_names(ns, ns.len() as int), files);
                    lemma_use_edges_listed(root, f, use_paths(ns, ns.len() as int), files);
                    lemma_ends_concat(
                        mod_edges(r, f, module_names(ns, ns.len() as int), set, files),
                        use_edges(r, f, use_paths(ns, ns.len() as int), set, files),
                        files,
                    );
                    lemma_ends_concat(es, file_edges_spec(r, f, ns, set, files), files);
                },
                None => {},
            },
            Err(_) => {},
        }
    }
}

/// Every file without a manifest is one of the files.
proof fn lemma_standalone_in(fs: FileSystemView, files: Seq<Seq<char>>)
    ensures
        forall|k: int|
            0 <= k < standalone_files(fs, files).len() ==> files.contains(
                #[trigger] standalone_files(fs, files)[k],
            ),
    decreases files.len(),
{
    if files.len() > 0 {
        let front = files.drop_last();
        lemma_standalone_in(fs, front);
        let a = standalone_files(fs, front);
        assert forall|k: int|
            0 <= k < standalone_files(fs, files).len() implies files.contains(
            #[trigger] standalone_files(fs, files)[k],
        ) by {
            if k < a.len() {
                assert(standalone_files(fs, files)[k] == a[k]);
                assert(front.contains(a[k]));
                let i = choose|i: int| 0 <= i < front.len() && front[i] == a[k];
                assert(files[i] == front[i]);
            } else {
                assert(standalone_files(fs, files)[k] == files[files.len() - 1]);
            }
        }
    }
}

/// Both ends of every edge that `fallback_edges` gives are among the files,
/// when each of them lies under `root`.
pub proof fn law_fallback_listed(root: Seq<char>, files: Seq<Seq<char>>, fs: FileSystemView)
    requires
        under_root(root, files),
    ensures
        fallback_upto(root, files, fs, files.len() as int) matches Ok(es) ==> ends_listed(es, files),
{
    lemma_fallback_listed(root, files, fs, files.len() as int);
}

/// Both ends of every edge that `semantic_edges` gives are among the files,
/// when each of them lies under `root` and the edges given for the files
/// under a manifest join files among them.
pub proof fn law_semantic_listed(
    root: Seq<char>,
    files: Seq<Seq<char>>,
    fs: FileSystemView,
    workspace: Seq<ResolvedEdgeView>,
)
    requires
        under_root(root, files),
        ends_listed(workspace, files),
    ensures
        semantic_edges_spec(root, files, fs, workspace) matches Ok(es) ==> ends_listed(es, files),
{
    let alone = standalone_files(fs, files);
    lemma_standalone_in(fs, files);
    assert forall|j: int| 0 <= j < alone.len() implies strip_prefix_path(
        parse_path(#[trigger] alone[j]),
        parse_path(root),
    ) is Some by {
        assert(files.contains(alone[j]));
    }
    lemma_fallback_listed(root, alone, fs, alone.len() as int);
    match fallback_upto(root, alone, fs, alone.len() as int) {
        Ok(es) => {
            assert forall|k: int| 0 <= k < es.len() implies files.contains((#[trigger] es[k]).from)
                && files.contains(es[k].to) by {
                assert(alone.contains(es[k].from) && alone.contains(es[k].to));
            }
            lemma_ends_concat(workspace, es, files);
            law_dedup_edges(workspace + es);
            let d = dedup_edges_spec(workspace + es);
            assert forall|k: int| 0 <= k < d.len() implies files.contains((#[trigger] d[k]).from)
                && files.contains(d[k].to) by {
                assert((workspace + es).contains(d[k]));
                let q = choose|q: int| 0 <= q < (workspace + es).len() && (workspace + es)[q] == d[k];
            }
        },
        Err(_) => {},
    }
}

/// The places where a manifest of `p` may be: `Cargo.toml` in `p` and in
/// each of its ancestors, nearest first.
pub open spec fn manifest_places(p: PathView) -> Seq<PathView>
    decreases p.parts.len(),
{
    let here = join(p, parse_path("Cargo.toml"@));
    match parent(p) {
        Some(q) => seq![here] + manifest_places(q),
        None => seq![here],
    }
}

/// The places where a manifest of `p` may be, nearest first: what has to
/// be known of the disk to find its nearest manifest.
pub fn manifest_probes(p: &PathModel) -> (res: Vec<PathModel>)
    ensures
        res@.map_values(|m: PathModel| m@) == manifest_places(p@),
{
    let name = PathModel::from_str("Cargo.toml");
    let mut out: Vec<PathModel> = Vec::new();
    let mut cur = p.copy();
    proof {
        assert(out@.map_values(|m: PathModel| m@) =~= Seq::<PathView>::empty());
    }
    loop
        invariant
            name@ == parse_path("Cargo.toml"@),
            out@.map_values(|m: PathModel| m@) + manifest_places(cur@) == manifest_places(p@),
        decreases cur@.parts.len(),
    {
        let m = cur.join(&name);
        let ghost before = out@.map_values(|m: PathModel| m@);
        out.push(m);
        proof {
            assert(out@.map_values(|m: PathModel| m@) =~= before.push(m@));
        }
        match cur.parent() {
            Some(q) => {
                proof {
                    assert(before.push(m@) + manifest_places(q@) =~= before + (seq![m@]
                        + manifest_places(q@)));
                }
                cur = q;
            },
            None => {
                proof {
                    assert(before.push(m@) =~= before + seq![m@]);
                }
                return out;
            },
        }
    }
}

} // verus!
