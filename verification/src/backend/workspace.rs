//! The parts of resolving a Rust workspace that do not need rust-analyzer's
//! analysis: where in a file it is asked what a name refers to, with the
//! label of the edges found there, and the edges that its answers give.

use vstd::prelude::*;
use crate::backend::rust::{edge_to, names_of, push_edge, scanned_path};
use crate::model::{edges_view, ResolvedEdge, ResolvedEdgeView};
use crate::parser::{kind_child, kind_child_exec, kind_is, lemma_kind_child};
use crate::path::{parse_path, PathModel};
use crate::resolver::common::path_eq;
use crate::syntax::{lemma_end_scan, nodes_view, subtree_end, subtree_end_exec, SyntaxNode, SyntaxNodeView};
use crate::text::{append_chars, from_chars, to_chars};

verus! {

/// A place where rust-analyzer is asked what a name refers to: the offset
/// of the name's token, and the label of the edges to what it finds.
#[derive(Debug, Clone)]
pub struct ResolutionSite {
    pub offset: usize,
    pub label: String,
}

impl View for ResolutionSite {
    type V = (usize, Seq<char>);

    open spec fn view(&self) -> (usize, Seq<char>) {
        (self.offset, self.label@)
    }
}

/// The views of a list of sites.
pub open spec fn sites_view(v: Seq<ResolutionSite>) -> Seq<(usize, Seq<char>)> {
    v.map_values(|s: ResolutionSite| s@)
}

/// An index as an integer.
pub open spec fn as_int(o: Option<usize>) -> Option<int> {
    match o {
        Some(k) => Some(k as int),
        None => None,
    }
}

/// The first of `a` and `b` that is something.
pub open spec fn or_else(a: Option<int>, b: Option<int>) -> Option<int> {
    match a {
        Some(x) => Some(x),
        None => b,
    }
}

/// The token of name reference `r` that names what it refers to: an
/// identifier, `self`, `super`, `crate` or `Self`, tried in that order.
pub open spec fn name_ref_token(ns: Seq<SyntaxNodeView>, r: int) -> Option<int> {
    let end = subtree_end(ns, r);
    or_else(
        kind_child(ns, r + 1, end, "IDENT"@),
        or_else(
            kind_child(ns, r + 1, end, "SELF_KW"@),
            or_else(
                kind_child(ns, r + 1, end, "SUPER_KW"@),
                or_else(kind_child(ns, r + 1, end, "CRATE_KW"@), kind_child(ns, r + 1, end, "SELF_TYPE_KW"@)),
            ),
        ),
    )
}

/// The token that use tree `t` is resolved at: that of the name reference
/// of the last segment of its path.
pub open spec fn tree_token(ns: Seq<SyntaxNodeView>, t: int) -> Option<int> {
    match kind_child(ns, t + 1, subtree_end(ns, t), "PATH"@) {
        None => None,
        Some(p) => match kind_child(ns, p + 1, subtree_end(ns, p), "PATH_SEGMENT"@) {
            None => None,
            Some(g) => match kind_child(ns, g + 1, subtree_end(ns, g), "NAME_REF"@) {
                None => None,
                Some(r) => name_ref_token(ns, r),
            },
        },
    }
}

/// The sites of use tree `t`: those of the trees of its brace list, or its
/// own, labelled with its text.
pub open spec fn tree_sites(ns: Seq<SyntaxNodeView>, t: int) -> Seq<(usize, Seq<char>)>
    decreases ns.len() - t, 0int,
    via tree_sites_decreases
{
    if t < 0 || t >= ns.len() {
        Seq::empty()
    } else {
        match kind_child(ns, t + 1, subtree_end(ns, t), "USE_TREE_LIST"@) {
            Some(l) => list_sites(ns, l + 1, subtree_end(ns, l)),
            None => match tree_token(ns, t) {
                Some(k) => seq![(ns[k].start, ns[t].text)],
                None => Seq::empty(),
            },
        }
    }
}

/// The sites of the use trees among the nodes from `j` on, before `end`,
/// stepping over subtrees.
pub open spec fn list_sites(ns: Seq<SyntaxNodeView>, j: int, end: int) -> Seq<(usize, Seq<char>)>
    decreases ns.len() - j, 1int,
    via list_sites_decreases
{
    if j < 0 || j >= end || j >= ns.len() {
        Seq::empty()
    } else {
        let here = if ns[j].kind == "USE_TREE"@ {
            tree_sites(ns, j)
        } else {
            Seq::empty()
        };
        here + list_sites(ns, subtree_end(ns, j), end)
    }
}

#[via_fn]
proof fn tree_sites_decreases(ns: Seq<SyntaxNodeView>, t: int) {
    if !(t < 0 || t >= ns.len()) {
        lemma_kind_child(ns, t + 1, subtree_end(ns, t), "USE_TREE_LIST"@);
    }
}

#[via_fn]
proof fn list_sites_decreases(ns: Seq<SyntaxNodeView>, j: int, end: int) {
    if !(j < 0 || j >= end || j >= ns.len()) {
        lemma_end_scan(ns, ns[j].depth, j + 1);
    }
}

/// The sites of the `use` item at node `i`.
pub open spec fn use_item_sites(ns: Seq<SyntaxNodeView>, i: int) -> Seq<(usize, Seq<char>)> {
    if ns[i].kind == "USE"@ {
        match kind_child(ns, i + 1, subtree_end(ns, i), "USE_TREE"@) {
            Some(t) => tree_sites(ns, t),
            None => Seq::empty(),
        }
    } else {
        Seq::empty()
    }
}

/// The sites of the `use` items among the first `n` nodes, in order.
pub open spec fn use_sites(ns: Seq<SyntaxNodeView>, n: int) -> Seq<(usize, Seq<char>)>
    decreases n,
{
    if n <= 0 {
        Seq::empty()
    } else {
        use_sites(ns, n - 1) + use_item_sites(ns, n - 1)
    }
}

/// The site of the module that node `i` declares in another file: its
/// name's identifier (or `self`), labelled `mod` and the name.
pub open spec fn module_site(ns: Seq<SyntaxNodeView>, i: int) -> Option<(usize, Seq<char>)> {
    let end = subtree_end(ns, i);
    if ns[i].kind == "MODULE"@ && kind_child(ns, i + 1, end, "SEMICOLON"@) is Some {
        match kind_child(ns, i + 1, end, "NAME"@) {
            Some(n) => match or_else(
                kind_child(ns, n + 1, subtree_end(ns, n), "IDENT"@),
                kind_child(ns, n + 1, subtree_end(ns, n), "SELF_KW"@),
            ) {
                Some(k) => Some((ns[k].start, "mod "@ + ns[n].text)),
                None => None,
            },
            None => None,
        }
    } else {
        None
    }
}

/// The sites of the out-of-line modules among the first `n` nodes, in order.
pub open spec fn module_sites(ns: Seq<SyntaxNodeView>, n: int) -> Seq<(usize, Seq<char>)>
    decreases n,
{
    if n <= 0 {
        Seq::empty()
    } else {
        match module_site(ns, n - 1) {
            Some(s) => module_sites(ns, n - 1).push(s),
            None => module_sites(ns, n - 1),
        }
    }
}

/// Whether `p` is one of the scanned `files`, comparing components.
pub open spec fn is_scanned(files: Seq<Seq<char>>, p: Seq<char>) -> bool {
    exists|k: int| 0 <= k < files.len() && parse_path(#[trigger] files[k]) == parse_path(p)
}

/// The edges from `from` labelled `label` to those of `targets` that are
/// scanned files, each written as `files` writes it.
pub open spec fn site_edges_spec(
    from: Seq<char>,
    label: Seq<char>,
    targets: Seq<Seq<char>>,
    files: Seq<Seq<char>>,
) -> Seq<ResolvedEdgeView>
    decreases targets.len(),
{
    if targets.len() == 0 {
        Seq::empty()
    } else {
        let pre = site_edges_spec(from, label, targets.drop_last(), files);
        if is_scanned(files, targets.last()) {
            pre + edge_to(from, scanned_path(files, targets.last()), label)
        } else {
            pre
        }
    }
}

fn first_token(nodes: &Vec<SyntaxNode>, r: usize) -> (res: Option<usize>)
    requires
        r < nodes@.len(),
    ensures
        as_int(res) == name_ref_token(nodes_view(nodes@), r as int),
        res matches Some(k) ==> k < nodes@.len(),
{
    let end = subtree_end_exec(nodes, r);
    let a = kind_child_exec(nodes, r + 1, end, "IDENT");
    if a.is_some() {
        return a;
    }
    let b = kind_child_exec(nodes, r + 1, end, "SELF_KW");
    if b.is_some() {
        return b;
    }
    let c = kind_child_exec(nodes, r + 1, end, "SUPER_KW");
    if c.is_some() {
        return c;
    }
    let d = kind_child_exec(nodes, r + 1, end, "CRATE_KW");
    if d.is_some() {
        return d;
    }
    kind_child_exec(nodes, r + 1, end, "SELF_TYPE_KW")
}

fn tree_token_exec(nodes: &Vec<SyntaxNode>, t: usize) -> (res: Option<usize>)
    requires
        t < nodes@.len(),
    ensures
        as_int(res) == tree_token(nodes_view(nodes@), t as int),
        res matches Some(k) ==> k < nodes@.len(),
{
    let te = subtree_end_exec(nodes, t);
    let p = match kind_child_exec(nodes, t + 1, te, "PATH") {
        Some(p) => p,
        None => return None,
    };
    let pe = subtree_end_exec(nodes, p);
    let g = match kind_child_exec(nodes, p + 1, pe, "PATH_SEGMENT") {
        Some(g) => g,
        None => return None,
    };
    let ge = subtree_end_exec(nodes, g);
    let r = match kind_child_exec(nodes, g + 1, ge, "NAME_REF") {
        Some(r) => r,
        None => return None,
    };
    first_token(nodes, r)
}

fn push_site(out: &mut Vec<ResolutionSite>, offset: usize, label: String)
    ensures
        sites_view(final(out)@) == sites_view(old(out)@).push((offset, label@)),
{
    let ghost before = sites_view(out@);
    let s = ResolutionSite { offset, label };
    out.push(s);
    proof {
        assert(sites_view(out@) =~= before.push((offset, label@)));
    }
}

fn append_sites(out: &mut Vec<ResolutionSite>, more: Vec<ResolutionSite>)
    ensures
        sites_view(final(out)@) == sites_view(old(out)@) + sites_view(more@),
{
    let mut more = more;
    let ghost o = out@;
    let ghost m = more@;
    out.append(&mut more);
    proof {
        assert(out@ =~= o + m);
        assert(sites_view(out@) =~= sites_view(o) + sites_view(m));
    }
}

fn tree_sites_exec(nodes: &Vec<SyntaxNode>, t: usize) -> (res: Vec<ResolutionSite>)
    requires
        t < nodes@.len(),
    ensures
        sites_view(res@) == tree_sites(nodes_view(nodes@), t as int),
    decreases nodes@.len() - t, 0int,
{
    let ghost ns = nodes_view(nodes@);
    let end = subtree_end_exec(nodes, t);
    let mut out: Vec<ResolutionSite> = Vec::new();
    proof {
        assert(sites_view(out@) =~= Seq::<(usize, Seq<char>)>::empty());
    }
    match kind_child_exec(nodes, t + 1, end, "USE_TREE_LIST") {
        Some(l) => {
            let le = subtree_end_exec(nodes, l);
            list_sites_exec(nodes, l + 1, le)
        },
        None => {
            match tree_token_exec(nodes, t) {
                Some(k) => {
                    push_site(&mut out, nodes[k].start, nodes[t].text.clone());
                    proof {
                        assert(sites_view(out@) =~= tree_sites(ns, t as int));
                    }
                },
                None => {},
            }
            out
        },
    }
}

fn list_sites_exec(nodes: &Vec<SyntaxNode>, start: usize, end: usize) -> (res: Vec<ResolutionSite>)
    requires
        start <= nodes@.len(),
    ensures
        sites_view(res@) == list_sites(nodes_view(nodes@), start as int, end as int),
    decreases nodes@.len() - start, 1int,
{
    let ghost ns = nodes_view(nodes@);
    let mut out: Vec<ResolutionSite> = Vec::new();
    let mut j = start;
    proof {
        assert(sites_view(out@) =~= Seq::<(usize, Seq<char>)>::empty());
    }
    while j < end && j < nodes.len()
        invariant
            start <= j <= nodes@.len(),
            ns == nodes_view(nodes@),
            sites_view(out@) + list_sites(ns, j as int, end as int) == list_sites(
                ns,
                start as int,
                end as int,
            ),
        decreases nodes@.len() - j,
    {
        let next = subtree_end_exec(nodes, j);
        proof {
            assert(ns[j as int] == nodes@[j as int]@);
        }
        let ghost before = sites_view(out@);
        if kind_is(&nodes[j], "USE_TREE") {
            let more = tree_sites_exec(nodes, j);
            let ghost m = sites_view(more@);
            append_sites(&mut out, more);
            proof {
                assert(before + m + list_sites(ns, next as int, end as int) =~= before + (m
                    + list_sites(ns, next as int, end as int)));
            }
        } else {
            proof {
                assert(list_sites(ns, j as int, end as int) =~= list_sites(ns, next as int, end as int));
            }
        }
        j = next;
    }
    proof {
        assert(sites_view(out@) + Seq::<(usize, Seq<char>)>::empty() =~= sites_view(out@));
    }
    out
}

/// Where rust-analyzer is asked about the `use` items of a Rust syntax
/// tree: the token of each leaf of each use tree, labelled with the leaf's
/// text, in order.
pub fn use_resolution_sites(nodes: &Vec<SyntaxNode>) -> (res: Vec<ResolutionSite>)
    ensures
        sites_view(res@) == use_sites(nodes_view(nodes@), nodes@.len() as int),
{
    let ghost ns = nodes_view(nodes@);
    let mut out: Vec<ResolutionSite> = Vec::new();
    let mut i: usize = 0;
    proof {
        assert(sites_view(out@) =~= Seq::<(usize, Seq<char>)>::empty());
    }
    while i < nodes.len()
        invariant
            i <= nodes@.len(),
            ns == nodes_view(nodes@),
            sites_view(out@) == use_sites(ns, i as int),
        decreases nodes.len() - i,
    {
        proof {
            assert(ns[i as int] == nodes@[i as int]@);
        }
        let ghost before = sites_view(out@);
        let mut found = false;
        if kind_is(&nodes[i], "USE") {
            let end = subtree_end_exec(nodes, i);
            match kind_child_exec(nodes, i + 1, end, "USE_TREE") {
                Some(t) => {
                    let more = tree_sites_exec(nodes, t);
                    append_sites(&mut out, more);
                    found = true;
                },
                None => {},
            }
        }
        if !found {
            proof {
                assert(before + Seq::<(usize, Seq<char>)>::empty() =~= before);
            }
        }
        i = i + 1;
    }
    out
}

/// Where rust-analyzer is asked about the out-of-line modules of a Rust
/// syntax tree: each one's name, labelled `mod` and the name, in order.
pub fn module_resolution_sites(nodes: &Vec<SyntaxNode>) -> (res: Vec<ResolutionSite>)
    ensures
        sites_view(res@) == module_sites(nodes_view(nodes@), nodes@.len() as int),
{
    let ghost ns = nodes_view(nodes@);
    let mut out: Vec<ResolutionSite> = Vec::new();
    let mut i: usize = 0;
    proof {
        assert(sites_view(out@) =~= Seq::<(usize, Seq<char>)>::empty());
    }
    while i < nodes.len()
        invariant
            i <= nodes@.len(),
            ns == nodes_view(nodes@),
            sites_view(out@) == module_sites(ns, i as int),
        decreases nodes.len() - i,
    {
        proof {
            assert(ns[i as int] == nodes@[i as int]@);
        }
        if kind_is(&nodes[i], "MODULE") {
            let end = subtree_end_exec(nodes, i);
            if kind_child_exec(nodes, i + 1, end, "SEMICOLON").is_some() {
                match kind_child_exec(nodes, i + 1, end, "NAME") {
                    Some(n) => {
                        let ne = subtree_end_exec(nodes, n);
                        let tok = match kind_child_exec(nodes, n + 1, ne, "IDENT") {
                            Some(k) => Some(k),
                            None => kind_child_exec(nodes, n + 1, ne, "SELF_KW"),
                        };
                        match tok {
                            Some(k) => {
                                let mut label = to_chars("mod ");
                                append_chars(&mut label, &to_chars(nodes[n].text.as_str()));
                                push_site(&mut out, nodes[k].start, from_chars(&label));
                            },
                            None => {},
                        }
                    },
                    None => {},
                }
            }
        }
        i = i + 1;
    }
    out
}

/// The edges from `from` labelled `label` to those `targets` (what
/// rust-analyzer found at a site) that are scanned `files`, each written as
/// `files` writes it.
pub fn site_edges(from: &str, label: &String, targets: &[String], files: &[String]) -> (res: Vec<
    ResolvedEdge,
>)
    ensures
        edges_view(res@) == site_edges_spec(from@, label@, names_of(targets@), names_of(files@)),
{
    let ghost tv = names_of(targets@);
    let ghost fv = names_of(files@);
    let mut edges: Vec<ResolvedEdge> = Vec::new();
    let mut i: usize = 0;
    proof {
        assert(tv.take(0) =~= Seq::<Seq<char>>::empty());
        assert(edges_view(edges@) =~= Seq::<ResolvedEdgeView>::empty());
    }
    while i < targets.len()
        invariant
            i <= targets@.len(),
            tv == names_of(targets@),
            fv == names_of(files@),
            edges_view(edges@) == site_edges_spec(from@, label@, tv.take(i as int), fv),
        decreases targets.len() - i,
    {
        let t = &targets[i];
        proof {
            assert(tv.take(i + 1).drop_last() =~= tv.take(i as int));
            assert(tv.take(i + 1).last() == t@);
        }
        let tp = PathModel::from_str(t.as_str());
        let mut hit: Option<usize> = None;
        let mut k: usize = files.len();
        while k > 0
            invariant
                k <= files@.len(),
                fv == names_of(files@),
                tp@ == parse_path(t@),
                hit is None ==> forall|q: int| k <= q < files@.len() ==> parse_path(#[trigger] fv[q]) != tp@,
                hit matches Some(h) ==> h < files@.len() && parse_path(fv[h as int]) == tp@
                    && forall|q: int| h < q < files@.len() ==> parse_path(#[trigger] fv[q]) != tp@,
            decreases k,
        {
            if hit.is_none() {
                let f = PathModel::from_str(files[k - 1].as_str());
                if path_eq(&f, &tp) {
                    hit = Some(k - 1);
                }
            }
            k = k - 1;
        }
        match hit {
            Some(h) => {
                proof {
                    assert(is_scanned(fv, t@));
                    lemma_scanned_last(fv, t@, h as int);
                }
                push_edge(from, files[h].clone(), label.clone(), &mut edges);
            },
            None => {
                proof {
                    assert(!is_scanned(fv, t@));
                }
            },
        }
        i = i + 1;
    }
    proof {
        assert(tv.take(targets@.len() as int) =~= tv);
    }
    edges
}

proof fn lemma_scanned_last(files: Seq<Seq<char>>, p: Seq<char>, h: int)
    requires
        0 <= h < files.len(),
        parse_path(files[h]) == parse_path(p),
        forall|q: int| h < q < files.len() ==> parse_path(#[trigger] files[q]) != parse_path(p),
    ensures
        scanned_path(files, p) == files[h],
    decreases files.len(),
{
    if h < files.len() - 1 {
        assert(parse_path(files.last()) != parse_path(p));
        lemma_scanned_last(files.drop_last(), p, h);
    }
}

} // verus!
