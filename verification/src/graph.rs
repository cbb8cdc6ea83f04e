//! The dependency graph written to the report: one node per file, one edge
//! per distinct pair of files that a resolved dependency connects.

pub mod module;
pub mod rust;

use vstd::prelude::*;
use crate::lang::Language;
use crate::model::ResolvedEdge;
use crate::path::{file_name, parse_path, PathModel};
use crate::walker::FileResult;

verus! {

/// A file of the graph.
#[derive(Debug, Clone)]
pub struct Node {
    pub id: String,
    pub label: String,
    pub language: Language,
    pub lines: u64,
    pub code: u64,
}

/// A dependency between two files of the graph.
#[derive(Debug, Clone)]
pub struct Edge {
    pub source: String,
    pub target: String,
    pub label: String,
}

/// Nodes and edges of the report.
#[derive(Debug, Clone)]
pub struct GraphData {
    pub nodes: Vec<Node>,
    pub edges: Vec<Edge>,
}

/// The relative path of the last file whose path has the components of
/// `path`.
pub open spec fn rel_of(files: Seq<FileResult>, path: Seq<char>) -> Option<Seq<char>>
    decreases files.len(),
{
    if files.len() == 0 {
        None
    } else if parse_path(files.last().path@) == parse_path(path) {
        Some(files.last().rel_path@)
    } else {
        rel_of(files.drop_last(), path)
    }
}

/// A node's label: the file name of its relative path, or the whole path.
pub open spec fn node_label(rel: Seq<char>) -> Seq<char> {
    match file_name(parse_path(rel)) {
        Some(n) => n,
        None => rel,
    }
}

/// Whether `(source, target)` is among the pairs of `es`.
pub open spec fn has_pair(es: Seq<(Seq<char>, Seq<char>, Seq<char>)>, s: Seq<char>, t: Seq<char>) -> bool {
    exists|i: int| 0 <= i < es.len() && (#[trigger] es[i]).0 == s && es[i].1 == t
}

/// The graph's edges as `(source, target, label)`: the resolved edges in
/// order, mapped to relative paths, without edges whose ends are not both
/// files, without self loops and without a second edge for a pair.
pub open spec fn graph_edges(es: Seq<ResolvedEdge>, files: Seq<FileResult>) -> Seq<
    (Seq<char>, Seq<char>, Seq<char>),
>
    decreases es.len(),
{
    if es.len() == 0 {
        Seq::empty()
    } else {
        let pre = graph_edges(es.drop_last(), files);
        let e = es.last();
        match (rel_of(files, e.from@), rel_of(files, e.to@)) {
            (Some(s), Some(t)) => if s != t && !has_pair(pre, s, t) {
                pre.push((s, t, e.label@))
            } else {
                pre
            },
            _ => pre,
        }
    }
}

/// Whether `r` is the relative path of one of `files`.
pub open spec fn is_file_rel(files: Seq<FileResult>, r: Seq<char>) -> bool {
    exists|k: int| 0 <= k < files.len() && (#[trigger] files[k]).rel_path@ == r
}

/// Whether `r` is the id of one of `nodes`.
pub open spec fn is_node_id(nodes: Seq<Node>, r: Seq<char>) -> bool {
    exists|k: int| 0 <= k < nodes.len() && (#[trigger] nodes[k]).id@ == r
}

pub open spec fn edge_view(e: Edge) -> (Seq<char>, Seq<char>, Seq<char>) {
    (e.source@, e.target@, e.label@)
}

proof fn lemma_rel_of_some(files: Seq<FileResult>, path: Seq<char>)
    ensures
        rel_of(files, path) matches Some(r) ==> is_file_rel(files, r),
    decreases files.len(),
{
    if files.len() > 0 && parse_path(files.last().path@) != parse_path(path) {
        lemma_rel_of_some(files.drop_last(), path);
        if rel_of(files, path) is Some {
            let i = choose|i: int|
                0 <= i < files.drop_last().len() && (#[trigger] files.drop_last()[i]).rel_path@
                    == rel_of(files, path)->0;
            assert(files[i] == files.drop_last()[i]);
        }
    } else if files.len() > 0 {
        assert(files[files.len() - 1] == files.last());
    }
}

/// The edges of `graph_edges` have no self loop, no repeated pair, and join
/// relative paths of files.
pub proof fn lemma_graph_edges_shape(es: Seq<ResolvedEdge>, files: Seq<FileResult>)
    ensures
        forall|i: int|
            0 <= i < graph_edges(es, files).len() ==> (#[trigger] graph_edges(es, files)[i]).0
                != graph_edges(es, files)[i].1,
        forall|i: int, j: int|
            0 <= i < j < graph_edges(es, files).len() ==> !((#[trigger] graph_edges(
                es,
                files,
            )[i]).0 == (#[trigger] graph_edges(es, files)[j]).0 && graph_edges(es, files)[i].1
                == graph_edges(es, files)[j].1),
        forall|i: int|
            0 <= i < graph_edges(es, files).len() ==> is_file_rel(
                files,
                (#[trigger] graph_edges(es, files)[i]).0,
            ) && is_file_rel(files, graph_edges(es, files)[i].1),
    decreases es.len(),
{
    if es.len() > 0 {
        lemma_graph_edges_shape(es.drop_last(), files);
        let e = es.last();
        lemma_rel_of_some(files, e.from@);
        lemma_rel_of_some(files, e.to@);
        let pre = graph_edges(es.drop_last(), files);
        let g = graph_edges(es, files);
        if g.len() > pre.len() {
            assert(g == pre.push(g.last()));
            assert forall|i: int, j: int| 0 <= i < j < g.len() implies !((#[trigger] g[i]).0
                == (#[trigger] g[j]).0 && g[i].1 == g[j].1) by {
                if j == g.len() - 1 && g[i].0 == g[j].0 && g[i].1 == g[j].1 {
                    assert(pre[i] == g[i]);
                    assert(has_pair(pre, g[j].0, g[j].1));
                }
            }
        }
    }
}


/// Every resolved edge whose ends are two different scanned files has an
/// edge with the same source and target among the graph's edges, whatever
/// other edges leave the same source.
pub proof fn law_graph_edges_cover(es: Seq<ResolvedEdge>, files: Seq<FileResult>)
    ensures
        forall|k: int|
            0 <= k < es.len() ==> match (
                rel_of(files, (#[trigger] es[k]).from@),
                rel_of(files, es[k].to@),
            ) {
                (Some(s), Some(t)) => s != t ==> exists|i: int|
                    0 <= i < graph_edges(es, files).len() && (#[trigger] graph_edges(
                        es,
                        files,
                    )[i]).0 == s && graph_edges(es, files)[i].1 == t,
                _ => true,
            },
    decreases es.len(),
{
    if es.len() > 0 {
        let front = es.drop_last();
        law_graph_edges_cover(front, files);
        let pre = graph_edges(front, files);
        let g = graph_edges(es, files);
        assert(pre.len() <= g.len());
        assert(forall|i: int| 0 <= i < pre.len() ==> g[i] == pre[i]);
        assert forall|k: int| 0 <= k < es.len() implies match (
            rel_of(files, (#[trigger] es[k]).from@),
            rel_of(files, es[k].to@),
        ) {
            (Some(s), Some(t)) => s != t ==> exists|i: int|
                0 <= i < g.len() && (#[trigger] g[i]).0 == s && g[i].1 == t,
            _ => true,
        } by {
            match (rel_of(files, es[k].from@), rel_of(files, es[k].to@)) {
                (Some(s), Some(t)) => {
                    if s != t {
                        if k < es.len() - 1 {
                            assert(es[k] == front[k]);
                            let i = choose|i: int|
                                0 <= i < pre.len() && (#[trigger] pre[i]).0 == s && pre[i].1 == t;
                            assert(g[i] == pre[i]);
                        } else if has_pair(pre, s, t) {
                            let i = choose|i: int|
                                0 <= i < pre.len() && (#[trigger] pre[i]).0 == s && pre[i].1 == t;
                            assert(g[i] == pre[i]);
                        } else {
                            assert(g[pre.len() as int].0 == s && g[pre.len() as int].1 == t);
                        }
                    }
                },
                _ => {},
            }
        }
    }
}

/// Whether resolved edge `e` joins the files with relative paths `s` and `t`.
pub open spec fn joins(files: Seq<FileResult>, e: ResolvedEdge, s: Seq<char>, t: Seq<char>) -> bool {
    rel_of(files, e.from@) == Some(s) && rel_of(files, e.to@) == Some(t)
}

/// Every edge of the graph comes from a resolved edge between its two
/// files, and carries the label of the first resolved edge between them.
pub proof fn law_graph_edges_first_label(es: Seq<ResolvedEdge>, files: Seq<FileResult>)
    ensures
        forall|i: int|
            #![trigger graph_edges(es, files)[i]]
            0 <= i < graph_edges(es, files).len() ==> exists|k: int|
                0 <= k < es.len() && joins(
                    files,
                    #[trigger] es[k],
                    graph_edges(es, files)[i].0,
                    graph_edges(es, files)[i].1,
                ) && es[k].label@ == graph_edges(es, files)[i].2 && (forall|j: int|
                    0 <= j < k ==> !joins(
                        files,
                        #[trigger] es[j],
                        graph_edges(es, files)[i].0,
                        graph_edges(es, files)[i].1,
                    )),
    decreases es.len(),
{
    if es.len() > 0 {
        let front = es.drop_last();
        law_graph_edges_first_label(front, files);
        law_graph_edges_cover(front, files);
        let pre = graph_edges(front, files);
        let g = graph_edges(es, files);
        assert(forall|i: int| 0 <= i < pre.len() ==> g[i] == pre[i]);
        assert forall|i: int| #![trigger g[i]] 0 <= i < g.len() implies exists|k: int|
            0 <= k < es.len() && joins(files, #[trigger] es[k], g[i].0, g[i].1) && es[k].label@
                == g[i].2 && (forall|j: int|
                0 <= j < k ==> !joins(files, #[trigger] es[j], g[i].0, g[i].1)) by {
            if i < pre.len() {
                let k = choose|k: int|
                    0 <= k < front.len() && joins(files, #[trigger] front[k], pre[i].0, pre[i].1)
                        && front[k].label@ == pre[i].2 && (forall|j: int|
                        0 <= j < k ==> !joins(files, #[trigger] front[j], pre[i].0, pre[i].1));
                assert(es[k] == front[k]);
                assert forall|j: int| 0 <= j < k implies !joins(files, #[trigger] es[j], g[i].0, g[i].1) by {
                    assert(es[j] == front[j]);
                }
            } else {
                let k = es.len() - 1;
                let s = g[i].0;
                let t = g[i].1;
                assert(joins(files, es[k], s, t));
                assert forall|j: int| 0 <= j < k implies !joins(files, #[trigger] es[j], s, t) by {
                    if joins(files, es[j], s, t) {
                        assert(es[j] == front[j]);
                        let q = choose|q: int| 0 <= q < pre.len() && (#[trigger] pre[q]).0 == s && pre[q].1 == t;
                        assert(has_pair(pre, s, t));
                    }
                }
            }
        }
    }
}

fn lookup_rel(files: &[FileResult], path: &String) -> (res: Option<String>)
    ensures
        match res {
            Some(r) => rel_of(files@, path@) == Some(r@),
            None => rel_of(files@, path@) is None,
        },
{
    let target = PathModel::from_str(path.as_str());
    let mut j: usize = files.len();
    proof {
        assert(files@.take(files@.len() as int) =~= files@);
    }
    while j > 0
        invariant
            j <= files@.len(),
            target@ == parse_path(path@),
            rel_of(files@, path@) == rel_of(files@.take(j as int), path@),
        decreases j,
    {
        proof {
            assert(files@.take(j as int).drop_last() =~= files@.take(j - 1));
            assert(files@.take(j as int).last() == files@[j - 1]);
        }
        let here = PathModel::from_str(files[j - 1].path.as_str());
        if crate::resolver::common::path_eq(&here, &target) {
            return Some(files[j - 1].rel_path.clone());
        }
        j = j - 1;
    }
    None
}

fn pair_seen(es: &Vec<Edge>, s: &String, t: &String) -> (res: bool)
    ensures
        res == has_pair(es@.map_values(|e: Edge| edge_view(e)), s@, t@),
{
    let ghost v = es@.map_values(|e: Edge| edge_view(e));
    let mut i: usize = 0;
    while i < es.len()
        invariant
            i <= es@.len(),
            v == es@.map_values(|e: Edge| edge_view(e)),
            forall|k: int| 0 <= k < i ==> !(v[k].0 == s@ && v[k].1 == t@),
        decreases es.len() - i,
    {
        if es[i].source == *s && es[i].target == *t {
            proof {
                assert(v[i as int].0 == s@ && v[i as int].1 == t@);
            }
            return true;
        }
        i = i + 1;
    }
    false
}

fn node_label_of(rel: &String) -> (res: String)
    ensures
        res@ == node_label(rel@),
{
    let p = PathModel::from_str(rel.as_str());
    match p.file_name() {
        Some(n) => crate::text::from_chars(&n),
        None => rel.clone(),
    }
}

/// Builds the report graph from the scanned files and the resolved edges.
///
/// There is one node per file, in order; an edge is kept when both of its
/// ends are scanned files, it is not a self loop, and no earlier edge joins
/// the same pair of files.
pub fn build_graph(root: &str, files: &[FileResult], semantic_edges: &[ResolvedEdge]) -> (res:
    GraphData)
    ensures
        res.nodes@.len() == files@.len(),
        forall|i: int|
            0 <= i < files@.len() ==> {
                &&& (#[trigger] res.nodes@[i]).id@ == files@[i].rel_path@
                &&& res.nodes@[i].label@ == node_label(files@[i].rel_path@)
                &&& res.nodes@[i].language == files@[i].language
                &&& res.nodes@[i].lines == files@[i].lines
                &&& res.nodes@[i].code == files@[i].code
            },
        res.edges@.map_values(|e: Edge| edge_view(e)) == graph_edges(semantic_edges@, files@),
        forall|i: int| 0 <= i < res.edges@.len() ==> (#[trigger] res.edges@[i]).source@ != res.edges@[i].target@,
        forall|i: int, j: int|
            0 <= i < j < res.edges@.len() ==> !((#[trigger] res.edges@[i]).source@
                == (#[trigger] res.edges@[j]).source@ && res.edges@[i].target@
                == res.edges@[j].target@),
        forall|i: int|
            0 <= i < res.edges@.len() ==> is_node_id(res.nodes@, (#[trigger] res.edges@[i]).source@)
                && is_node_id(res.nodes@, res.edges@[i].target@),
        forall|k: int|
            0 <= k < semantic_edges@.len() ==> match (
                rel_of(files@, (#[trigger] semantic_edges@[k]).from@),
                rel_of(files@, semantic_edges@[k].to@),
            ) {
                (Some(s), Some(t)) => s != t ==> exists|i: int|
                    0 <= i < res.edges@.len() && (#[trigger] res.edges@[i]).source@ == s
                        && res.edges@[i].target@ == t,
                _ => true,
            },
{
    let mut nodes: Vec<Node> = Vec::new();
    let mut i: usize = 0;
    while i < files.len()
        invariant
            i <= files@.len(),
            nodes@.len() == i,
            forall|k: int|
                0 <= k < i ==> {
                    &&& (#[trigger] nodes@[k]).id@ == files@[k].rel_path@
                    &&& nodes@[k].label@ == node_label(files@[k].rel_path@)
                    &&& nodes@[k].language == files@[k].language
                    &&& nodes@[k].lines == files@[k].lines
                    &&& nodes@[k].code == files@[k].code
                },
        decreases files.len() - i,
    {
        let f = &files[i];
        nodes.push(
            Node {
                id: f.rel_path.clone(),
                label: node_label_of(&f.rel_path),
                language: f.language,
                lines: f.lines,
                code: f.code,
            },
        );
        i = i + 1;
    }
    let mut edges: Vec<Edge> = Vec::new();
    let mut j: usize = 0;
    proof {
        assert(semantic_edges@.take(0) =~= Seq::<ResolvedEdge>::empty());
    }
    while j < semantic_edges.len()
        invariant
            j <= semantic_edges@.len(),
            edges@.map_values(|e: Edge| edge_view(e)) == graph_edges(
                semantic_edges@.take(j as int),
                files@,
            ),
        decreases semantic_edges.len() - j,
    {
        let e = &semantic_edges[j];
        let ghost es = semantic_edges@.take(j + 1);
        proof {
            assert(es.drop_last() =~= semantic_edges@.take(j as int));
            assert(es.last() == semantic_edges@[j as int]);
        }
        let src = lookup_rel(files, &e.from);
        let tgt = lookup_rel(files, &e.to);
        match (src, tgt) {
            (Some(s), Some(t)) => {
                if s != t && !pair_seen(&edges, &s, &t) {
                    let ghost before = edges@;
                    edges.push(Edge { source: s, target: t, label: e.label.clone() });
                    proof {
                        assert(edges@.map_values(|e: Edge| edge_view(e)) =~= before.map_values(
                            |e: Edge| edge_view(e),
                        ).push(edge_view(edges@.last())));
                    }
                }
            },
            _ => {},
        }
        j = j + 1;
    }
    proof {
        assert(semantic_edges@.take(semantic_edges@.len() as int) =~= semantic_edges@);
        lemma_graph_edges_shape(semantic_edges@, files@);
        let g = graph_edges(semantic_edges@, files@);
        let ev = edges@.map_values(|e: Edge| edge_view(e));
        assert forall|i: int| 0 <= i < edges@.len() implies (#[trigger] edges@[i]).source@
            != edges@[i].target@ by {
            assert(ev[i] == g[i]);
        }
        assert forall|i: int, j: int| 0 <= i < j < edges@.len() implies !((
        #[trigger] edges@[i]).source@ == (#[trigger] edges@[j]).source@ && edges@[i].target@
            == edges@[j].target@) by {
            assert(ev[i] == g[i]);
            assert(ev[j] == g[j]);
        }
        assert forall|i: int| 0 <= i < edges@.len() implies is_node_id(
            nodes@,
            (#[trigger] edges@[i]).source@,
        ) && is_node_id(nodes@, edges@[i].target@) by {
            assert(ev[i] == g[i]);
            assert(is_file_rel(files@, g[i].0));
            assert(is_file_rel(files@, g[i].1));
            let k1 = choose|k: int| 0 <= k < files@.len() && (#[trigger] files@[k]).rel_path@ == g[i].0;
            let k2 = choose|k: int| 0 <= k < files@.len() && (#[trigger] files@[k]).rel_path@ == g[i].1;
            assert(nodes@[k1].id@ == files@[k1].rel_path@);
            assert(nodes@[k2].id@ == files@[k2].rel_path@);
        }
    }
    let res = GraphData { nodes, edges };
    proof {
        let g = graph_edges(semantic_edges@, files@);
        let ev = res.edges@.map_values(|e: Edge| edge_view(e));
        law_graph_edges_cover(semantic_edges@, files@);
        assert forall|k: int| 0 <= k < semantic_edges@.len() implies match (
            rel_of(files@, (#[trigger] semantic_edges@[k]).from@),
            rel_of(files@, semantic_edges@[k].to@),
        ) {
            (Some(s), Some(t)) => s != t ==> exists|i: int|
                0 <= i < res.edges@.len() && (#[trigger] res.edges@[i]).source@ == s
                    && res.edges@[i].target@ == t,
            _ => true,
        } by {
            match (rel_of(files@, semantic_edges@[k].from@), rel_of(files@, semantic_edges@[k].to@)) {
                (Some(s), Some(t)) => {
                    if s != t {
                        let i = choose|i: int|
                            0 <= i < g.len() && (#[trigger] g[i]).0 == s && g[i].1 == t;
                        assert(ev[i] == g[i]);
                        assert(res.edges@[i].source@ == s && res.edges@[i].target@ == t);
                    }
                },
                _ => {},
            }
        }
    }
    res
}

} // verus!
