use modkei_core::walker::analyze_source;
use modkei_core::backend::rust::{
    dedup_edges, fallback_edges, file_edges, manifest_groups, nearest_manifest, BackendError,
};
use modkei_core::backend::semantic_edges;
use modkei_core::backend::workspace::{module_resolution_sites, site_edges, use_resolution_sites};
use modkei_core::graph::build_graph;
use modkei_core::lang::Language;
use modkei_core::model::ResolvedEdge;
use modkei_core::path::{normalize_path, PathModel};
use modkei_core::resolver::common::FileSystemView;
use modkei_core::syntax::SyntaxNode;

fn fs_with(files: &[(&str, &str)], extra: &[&str]) -> FileSystemView {
    let mut names: Vec<String> = files.iter().map(|(p, _)| normalize_path(p)).collect();
    names.extend(extra.iter().map(|p| normalize_path(p)));
    FileSystemView {
        files: names,
        contents: files
            .iter()
            .map(|(p, t)| (normalize_path(p), t.to_string()))
            .collect(),
    }
}

fn edge(from: &str, to: &str, label: &str) -> ResolvedEdge {
    ResolvedEdge {
        from: from.to_string(),
        to: to.to_string(),
        label: label.to_string(),
        language: Language::Rust,
    }
}

fn strings(v: &[&str]) -> Vec<String> {
    v.iter().map(|s| s.to_string()).collect()
}

#[test]
fn rust_modules_create_file_edges_without_manifest() {
    let sources = [
        ("/r/src/lib.rs", "mod parser;\npub use parser::parse;\n"),
        ("/r/src/parser.rs", "pub fn parse() {}\n"),
    ];
    let fs = fs_with(&sources, &[]);
    let files = strings(&["/r/src/lib.rs", "/r/src/parser.rs"]);
    let edges = semantic_edges("/r", &files, &fs, &[]).unwrap();
    assert_eq!(
        edges,
        vec![
            edge("/r/src/lib.rs", "/r/src/parser.rs", "mod parser"),
            edge("/r/src/lib.rs", "/r/src/parser.rs", "parser::parse"),
        ]
    );
    let results: Vec<_> = sources
        .iter()
        .map(|(p, t)| analyze_source("/r", p, t))
        .collect();
    let graph = build_graph("/r", &results, &edges);
    assert_eq!(graph.nodes.len(), 2);
    assert_eq!(graph.edges.len(), 1);
    assert_eq!(graph.edges[0].source, "src/lib.rs");
    assert_eq!(graph.edges[0].target, "src/parser.rs");
}

#[test]
fn rust_module_directories_resolve_to_mod_rs_without_manifest() {
    let fs = fs_with(
        &[
            ("/r/src/lib.rs", "mod parser;\n"),
            ("/r/src/parser/mod.rs", "pub fn parse() {}\n"),
        ],
        &[],
    );
    let files = strings(&["/r/src/lib.rs", "/r/src/parser/mod.rs"]);
    let edges = fallback_edges("/r", &files, &fs).unwrap();
    assert_eq!(
        edges,
        vec![edge("/r/src/lib.rs", "/r/src/parser/mod.rs", "mod parser")]
    );
}

#[test]
fn use_trees_resolve_through_crate_and_lists() {
    let fs = fs_with(
        &[
            (
                "/r/src/lib.rs",
                "use crate::graph::{Edge, node::Node};\nuse self::graph as g;\nuse std::fmt;\n",
            ),
            ("/r/src/graph.rs", ""),
            ("/r/src/graph/node.rs", ""),
        ],
        &[],
    );
    let files = strings(&["/r/src/lib.rs", "/r/src/graph.rs", "/r/src/graph/node.rs"]);
    let edges = fallback_edges("/r", &files, &fs).unwrap();
    assert_eq!(
        edges,
        vec![
            edge("/r/src/lib.rs", "/r/src/graph.rs", "crate::graph::Edge"),
            edge("/r/src/lib.rs", "/r/src/graph/node.rs", "crate::graph::node::Node"),
            edge("/r/src/lib.rs", "/r/src/graph.rs", "self::graph"),
        ]
    );
}

#[test]
fn a_missing_text_is_an_error() {
    let fs = fs_with(&[("/r/a.rs", "mod b;\n")], &[]);
    let files = strings(&["/r/a.rs", "/r/b.rs"]);
    assert_eq!(
        fallback_edges("/r", &files, &fs),
        Err(BackendError::Unreadable("/r/b.rs".to_string()))
    );
}

#[test]
fn files_under_a_manifest_are_left_to_the_workspace() {
    let fs = fs_with(
        &[
            ("/r/app/src/lib.rs", "mod parser;\n"),
            ("/r/app/src/parser.rs", ""),
            ("/r/tool.rs", "mod helper;\n"),
            ("/r/helper.rs", ""),
        ],
        &["/r/app/Cargo.toml"],
    );
    let files = strings(&[
        "/r/app/src/lib.rs",
        "/r/app/src/parser.rs",
        "/r/tool.rs",
        "/r/helper.rs",
    ]);
    let (groups, alone) = manifest_groups(&files, &fs);
    assert_eq!(groups.len(), 1);
    assert_eq!(groups[0].0, normalize_path("/r/app/Cargo.toml"));
    assert_eq!(groups[0].1, strings(&["/r/app/src/lib.rs", "/r/app/src/parser.rs"]));
    assert_eq!(alone, strings(&["/r/tool.rs", "/r/helper.rs"]));

    let workspace = vec![edge("/r/app/src/lib.rs", "/r/app/src/parser.rs", "mod parser")];
    let edges = semantic_edges("/r", &files, &fs, &workspace).unwrap();
    assert_eq!(
        edges,
        vec![
            edge("/r/app/src/lib.rs", "/r/app/src/parser.rs", "mod parser"),
            edge("/r/tool.rs", "/r/helper.rs", "mod helper"),
        ]
    );
}

#[test]
fn the_nearest_manifest_wins() {
    let fs = fs_with(&[], &["/r/Cargo.toml", "/r/a/Cargo.toml"]);
    let found = nearest_manifest(&PathModel::from_str("/r/a/src/x.rs"), &fs).unwrap();
    assert_eq!(found.display(), "/r/a/Cargo.toml");
    assert!(nearest_manifest(&PathModel::from_str("/s/x.rs"), &fs).is_none());
}

#[test]
fn like_edges_are_kept_once() {
    let edges = vec![
        edge("/r/a.rs", "/r/b.rs", "x"),
        edge("/r/./a.rs", "/r/b.rs", "x"),
        edge("/r/a.rs", "/r/b.rs", "y"),
        edge("/r/a.rs", "/r/b.rs", "x"),
    ];
    assert_eq!(
        dedup_edges(edges),
        vec![edge("/r/a.rs", "/r/b.rs", "x"), edge("/r/a.rs", "/r/b.rs", "y")]
    );
}

#[test]
fn a_file_gets_no_edge_to_itself() {
    let fs = fs_with(&[("/r/src/a.rs", "use crate::a;\n")], &[]);
    let files = strings(&["/r/src/a.rs"]);
    assert_eq!(fallback_edges("/r", &files, &fs).unwrap(), vec![]);
}

fn n(kind: &str, depth: u32, start: usize, text: &str) -> SyntaxNode {
    SyntaxNode {
        kind: kind.to_string(),
        field: None,
        depth,
        start,
        end: start + text.len(),
        text: text.to_string(),
    }
}

#[test]
fn edges_come_from_a_tree_built_by_hand() {
    let nodes = vec![
        n("SOURCE_FILE", 0, 0, "mod m;"),
        n("MODULE", 1, 0, "mod m;"),
        n("MOD_KW", 2, 0, "mod"),
        n("NAME", 2, 4, "m"),
        n("IDENT", 3, 4, "m"),
        n("SEMICOLON", 2, 5, ";"),
    ];
    let root = PathModel::from_str("/r");
    let rel = strings(&["m.rs", "lib.rs"]);
    let all = strings(&["/r/m.rs", "/r/lib.rs"]);
    assert_eq!(
        file_edges(&root, "/r/lib.rs", &nodes, &rel, &all),
        vec![edge("/r/lib.rs", "/r/m.rs", "mod m")]
    );
    let sites = module_resolution_sites(&nodes);
    assert_eq!(sites.len(), 1);
    assert_eq!((sites[0].offset, sites[0].label.as_str()), (4, "mod m"));
}

#[test]
fn workspace_sites_and_their_edges() {
    let nodes = vec![
        n("SOURCE_FILE", 0, 0, "use a::{b, c};"),
        n("USE", 1, 0, "use a::{b, c};"),
        n("USE_TREE", 2, 4, "a::{b, c}"),
        n("PATH", 3, 4, "a"),
        n("PATH_SEGMENT", 4, 4, "a"),
        n("NAME_REF", 5, 4, "a"),
        n("IDENT", 6, 4, "a"),
        n("USE_TREE_LIST", 3, 7, "{b, c}"),
        n("USE_TREE", 4, 8, "b"),
        n("PATH", 5, 8, "b"),
        n("PATH_SEGMENT", 6, 8, "b"),
        n("NAME_REF", 7, 8, "b"),
        n("IDENT", 8, 8, "b"),
        n("USE_TREE", 4, 11, "c"),
        n("PATH", 5, 11, "c"),
        n("PATH_SEGMENT", 6, 11, "c"),
        n("NAME_REF", 7, 11, "c"),
        n("SELF_KW", 8, 11, "c"),
    ];
    let sites = use_resolution_sites(&nodes);
    let got: Vec<(usize, String)> = sites.iter().map(|s| (s.offset, s.label.clone())).collect();
    assert_eq!(got, vec![(8, "b".to_string()), (11, "c".to_string())]);
    let targets = strings(&["/r/x.rs", "/elsewhere/y.rs", "/r/./lib.rs"]);
    let files = strings(&["/r/lib.rs", "/r/x.rs"]);
    assert_eq!(
        site_edges("/r/lib.rs", &"b".to_string(), &targets, &files),
        vec![edge("/r/lib.rs", "/r/x.rs", "b")]
    );
}

#[test]
fn edges_join_files_that_were_listed() {
    let sources = [
        ("/r/src/lib.rs", "mod a;\nmod missing;\nuse crate::a::b;\nuse std::fmt;\n"),
        ("/r/src/a.rs", "mod b;\n"),
        ("/r/src/a/b.rs", "use super::a;\n"),
    ];
    let fs = fs_with(&sources, &[]);
    let files = strings(&["/r/src/lib.rs", "/r/src/a.rs", "/r/src/a/b.rs"]);
    let edges = fallback_edges("/r", &files, &fs).unwrap();
    assert!(!edges.is_empty());
    for e in &edges {
        assert!(files.contains(&e.from), "{e:?}");
        assert!(files.contains(&e.to), "{e:?}");
    }
    let workspace = vec![edge("/r/src/a.rs", "/r/src/lib.rs", "crate")];
    let all = semantic_edges("/r", &files, &fs, &workspace).unwrap();
    for e in &all {
        assert!(files.contains(&e.from) && files.contains(&e.to), "{e:?}");
    }
}
