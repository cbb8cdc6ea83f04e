use modkei_core::graph::build_graph;
use modkei_core::lang::Language;
use modkei_core::model::ResolvedEdge;
use modkei_core::path::normalize_path;
use modkei_core::stats::count_lines;
use modkei_core::walker::{analyze_source, relative_path, FileResult, ProgressStage};

fn file(path: &str, rel: &str, lines: u64, code: u64) -> FileResult {
    FileResult {
        path: path.to_string(),
        rel_path: rel.to_string(),
        language: Language::Rust,
        lines,
        code,
        comments: 0,
        blanks: lines - code,
    }
}

fn edge(from: &str, to: &str, label: &str) -> ResolvedEdge {
    ResolvedEdge {
        from: from.to_string(),
        to: to.to_string(),
        label: label.to_string(),
        language: Language::Rust,
    }
}

#[test]
fn counts_code_comments_and_blanks() {
    let source = "fn a() {}\n\n// c\n/* x\ny */\nz";
    assert_eq!(count_lines(source, Language::Rust), (6, 2, 3, 1));
}

#[test]
fn counts_a_one_line_block_comment_as_comment() {
    assert_eq!(count_lines("/* x */ let y = 1;\nz\n", Language::Rust), (2, 1, 1, 0));
}

#[test]
fn counts_nothing_in_an_empty_source() {
    assert_eq!(count_lines("", Language::Rust), (0, 0, 0, 0));
}

#[test]
fn unknown_language_has_no_comments() {
    assert_eq!(count_lines("// x\n\n", Language::Unknown), (2, 1, 0, 1));
}

#[test]
fn hash_comments_count_for_python() {
    assert_eq!(count_lines("# c\nx = 1\r\n", Language::Python), (2, 1, 1, 0));
}

#[test]
fn line_totals_add_up() {
    let source = "a\n\n/*\n\n*/\n// x\nb\n   \n";
    let (lines, code, comments, blanks) = count_lines(source, Language::Rust);
    assert_eq!(lines, code + comments + blanks);
    assert_eq!((lines, code, comments, blanks), (8, 2, 3, 3));
}

#[test]
fn languages_come_from_the_extension() {
    assert_eq!(Language::from_path("src/main.rs"), Language::Rust);
    assert_eq!(Language::from_path("src/main.py"), Language::Unknown);
    assert_eq!(Language::from_path("Makefile"), Language::Unknown);
    assert_eq!(Language::from_path(".rs"), Language::Unknown);
    assert_eq!(Language::Rust.name(), "Rust");
    assert_eq!(Language::CMake.name(), "CMake");
    assert!(Language::Rust.is_supported());
    assert!(!Language::Unknown.is_supported());
}

#[test]
fn paths_are_written_by_their_components() {
    assert_eq!(normalize_path("./a//b/"), "./a/b");
    assert_eq!(normalize_path("a/./b"), "a/b");
    assert_eq!(normalize_path("/x/../y"), "//x/../y");
    assert_eq!(relative_path("/r", "/r/src/a.rs"), "src/a.rs");
    assert_eq!(relative_path("/r", "/other/x.rs"), "//other/x.rs");
}

#[test]
fn analyzes_a_file_relative_to_the_root() {
    let f = analyze_source("/r", "/r/src/a.rs", "fn a() {}\n// done\n");
    assert_eq!(f.path, "/r/src/a.rs");
    assert_eq!(f.rel_path, "src/a.rs");
    assert_eq!(f.language, Language::Rust);
    assert_eq!((f.lines, f.code, f.comments, f.blanks), (2, 1, 1, 0));
}

#[test]
fn progress_stages_have_messages() {
    assert_eq!(ProgressStage::ScanningFiles.message(), "scanning files");
    assert_eq!(
        ProgressStage::ResolvingDependencies.message(),
        "resolving Rust dependencies"
    );
    assert_eq!(ProgressStage::BuildingGraph.message(), "building graph");
}

#[test]
fn graph_keeps_one_edge_per_pair_between_files() {
    let files = vec![
        file("/r/src/lib.rs", "src/lib.rs", 2, 2),
        file("/r/src/parser.rs", "src/parser.rs", 1, 1),
    ];
    let edges = vec![
        edge("/r/src/lib.rs", "/r/src/parser.rs", "mod parser"),
        edge("/r/src/lib.rs", "/r/src/parser.rs", "parser::parse"),
        edge("/r/src/lib.rs", "/r/src/lib.rs", "self"),
        edge("/r/src/lib.rs", "/r/src/missing.rs", "missing"),
        edge("/r/./src/parser.rs", "/r/src/lib.rs", "back"),
    ];
    let graph = build_graph("/r", &files, &edges);
    assert_eq!(graph.nodes.len(), 2);
    assert_eq!(graph.nodes[0].id, "src/lib.rs");
    assert_eq!(graph.nodes[0].label, "lib.rs");
    assert_eq!(graph.nodes[1].label, "parser.rs");
    assert_eq!(graph.nodes[1].lines, 1);
    let pairs: Vec<(String, String, String)> = graph
        .edges
        .iter()
        .map(|e| (e.source.clone(), e.target.clone(), e.label.clone()))
        .collect();
    assert_eq!(
        pairs,
        vec![
            (
                "src/lib.rs".to_string(),
                "src/parser.rs".to_string(),
                "mod parser".to_string()
            ),
            (
                "src/parser.rs".to_string(),
                "src/lib.rs".to_string(),
                "back".to_string()
            ),
        ]
    );
}

#[test]
fn line_counts_add_up_over_joined_texts() {
    let first = "fn a() {}\n// c\n\n";
    let second = "x\n/* y\nz */\n\n w";
    let joined = format!("{first}{second}");
    let a = count_lines(first, Language::Rust);
    let b = count_lines(second, Language::Rust);
    assert_eq!(a, (3, 1, 1, 1));
    assert_eq!(b, (5, 2, 2, 1));
    assert_eq!(
        count_lines(&joined, Language::Rust),
        (a.0 + b.0, a.1 + b.1, a.2 + b.2, a.3 + b.3)
    );
}
