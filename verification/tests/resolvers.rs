use modkei_core::graph::module::{resolve_go, resolve_python, resolve_relative};
use modkei_core::lang::Language;
use modkei_core::model::ImportEdge;
use modkei_core::parser::RawImportKind;
use modkei_core::path::{normalize_path, PathModel};
use modkei_core::resolver::common::{
    nearest_config_dir, nearest_config_file, resolve_candidate, FileSystemView,
};
use modkei_core::resolver::go::module_path_of;
use modkei_core::resolver::resolve;
use modkei_core::resolver::typescript::{apply_replacement, match_path_pattern};

fn import(from: &str, target: &str, kind: RawImportKind, language: Language) -> ImportEdge {
    ImportEdge {
        from: from.to_string(),
        target: target.to_string(),
        kind,
        language,
    }
}

fn set(v: &[&str]) -> Vec<String> {
    v.iter().map(|s| s.to_string()).collect()
}

fn fs(files: &[(&str, &str)]) -> FileSystemView {
    FileSystemView {
        files: files.iter().map(|(p, _)| normalize_path(p)).collect(),
        contents: files
            .iter()
            .map(|(p, t)| (normalize_path(p), t.to_string()))
            .collect(),
    }
}

fn root() -> PathModel {
    PathModel::from_str("/r")
}

#[test]
fn c_includes_resolve_beside_the_file_then_under_the_root() {
    let empty = fs(&[]);
    let rel = set(&["src/util.h", "include/api.hpp"]);
    let near = import("/r/src/main.c", "util.h", RawImportKind::Include, Language::C);
    assert_eq!(resolve(&root(), &near, &rel, &empty), Some("src/util.h".to_string()));
    let shared = import("/r/src/main.cpp", "api", RawImportKind::Include, Language::Cpp);
    assert_eq!(resolve(&root(), &shared, &rel, &empty), Some("include/api.hpp".to_string()));
    let not_include = import("/r/src/main.c", "util.h", RawImportKind::Module, Language::C);
    assert_eq!(resolve(&root(), &not_include, &rel, &empty), None);
}

#[test]
fn python_relative_and_absolute_modules() {
    let empty = fs(&[]);
    let rel = set(&["pkg/utils.py", "core/config.py", "a/b/__init__.py"]);
    let one = import("/r/pkg/mod.py", ".utils", RawImportKind::Symbol, Language::Python);
    assert_eq!(resolve(&root(), &one, &rel, &empty), Some("pkg/utils.py".to_string()));
    let two = import("/r/pkg/mod.py", "..core.config", RawImportKind::Symbol, Language::Python);
    assert_eq!(resolve(&root(), &two, &rel, &empty), Some("core/config.py".to_string()));
    let pkg = import("/r/main.py", "a.b", RawImportKind::Module, Language::Python);
    assert_eq!(resolve(&root(), &pkg, &rel, &empty), Some("a/b/__init__.py".to_string()));
}

#[test]
fn rust_modules_and_paths() {
    let empty = fs(&[]);
    let rel = set(&["src/parser.rs", "src/graph.rs"]);
    let m = import("/r/src/lib.rs", "parser", RawImportKind::Module, Language::Rust);
    assert_eq!(resolve(&root(), &m, &rel, &empty), Some("src/parser.rs".to_string()));
    let u = import("/r/src/lib.rs", "crate::graph::Edge", RawImportKind::Symbol, Language::Rust);
    assert_eq!(resolve(&root(), &u, &rel, &empty), Some("src/graph.rs".to_string()));
    let other = import("/r/src/lib.rs", "std::fmt", RawImportKind::Symbol, Language::Rust);
    assert_eq!(resolve(&root(), &other, &rel, &empty), None);
}

#[test]
fn go_imports_resolve_inside_the_module() {
    let view = fs(&[("/r/go.mod", "// comment\nmodule example.com/app\n")]);
    let rel = set(&["pkg/util/util.go", "cmd/main.go"]);
    let g = import("/r/cmd/main.go", "example.com/app/pkg/util", RawImportKind::Module, Language::Go);
    assert_eq!(resolve(&root(), &g, &rel, &view), Some("pkg/util/util.go".to_string()));
    assert_eq!(module_path_of("x\n  module  a/b  \n"), Some("a/b".to_string()));
    assert_eq!(module_path_of("module \n"), None);
}

#[test]
fn typescript_paths_from_the_config() {
    let view = fs(&[(
        "/r/tsconfig.json",
        r#"{"compilerOptions": {"baseUrl": ".", "paths": {"@/*": ["src/*"]}}}"#,
    )]);
    let rel = set(&["src/util.ts", "src/b.tsx", "lib/index.js"]);
    let alias = import("/r/src/app.ts", "@/util", RawImportKind::Module, Language::TypeScript);
    assert_eq!(resolve(&root(), &alias, &rel, &view), Some("src/util.ts".to_string()));
    let relative = import("/r/src/app.ts", "./b", RawImportKind::Module, Language::TypeScript);
    assert_eq!(resolve(&root(), &relative, &rel, &view), Some("src/b.tsx".to_string()));
    let base = import("/r/src/app.ts", "lib", RawImportKind::Module, Language::JavaScript);
    assert_eq!(resolve(&root(), &base, &rel, &view), Some("lib/index.js".to_string()));
    let broken = fs(&[("/r/tsconfig.json", "{ not json")]);
    assert_eq!(resolve(&root(), &alias, &rel, &broken), None);
}

#[test]
fn languages_without_a_resolver_resolve_nothing() {
    let empty = fs(&[]);
    let rel = set(&["x.java"]);
    let j = import("/r/a.java", "x", RawImportKind::Module, Language::Java);
    assert_eq!(resolve(&root(), &j, &rel, &empty), None);
}

#[test]
fn candidates_try_each_extension_form() {
    let rel = set(&["a/mod.rs", "b/index.ts"]);
    assert_eq!(
        resolve_candidate(&root(), &PathModel::from_str("/r/a"), &rel, &["rs"]),
        Some("a/mod.rs".to_string())
    );
    assert_eq!(
        resolve_candidate(&root(), &PathModel::from_str("/r/b"), &rel, &["js", "ts"]),
        Some("b/index.ts".to_string())
    );
    assert_eq!(resolve_candidate(&root(), &PathModel::from_str("/r/c"), &rel, &["rs"]), None);
}

#[test]
fn config_files_are_found_upwards_until_the_root() {
    let view = fs(&[("/r/tsconfig.json", "{}"), ("/tsconfig.json", "{}")]);
    let from = PathModel::from_str("/r/src/deep/a.ts");
    let dir = nearest_config_dir(&from, &root(), &["jsconfig.json", "tsconfig.json"], &view).unwrap();
    assert_eq!(dir.display(), "/r");
    let file = nearest_config_file(&from, &root(), &["tsconfig.json"], &view).unwrap();
    assert_eq!(file.display(), "/r/tsconfig.json");
    let outside = PathModel::from_str("/other/a.ts");
    assert!(nearest_config_dir(&outside, &PathModel::from_str("/other"), &["x.json"], &view).is_none());
}

#[test]
fn graph_module_keys_resolve() {
    let rel = set(&["a/c.ts", "pkg/x/y.go", "m/n.py"]);
    assert_eq!(
        resolve_relative("/r/a/b.ts", "module:./c", &root(), &rel, &["ts"]),
        Some("a/c.ts".to_string())
    );
    assert_eq!(resolve_relative("/r/a/b.ts", "module:c", &root(), &rel, &["ts"]), None);
    assert_eq!(resolve_go("module:pkg/x", &rel), Some("pkg/x/y.go".to_string()));
    assert_eq!(resolve_go("pkg/x", &rel), None);
    assert_eq!(
        resolve_python("/r/main.py", "module:m.n", &root(), &rel),
        Some("m/n.py".to_string())
    );
}

#[test]
fn graph_rust_keys_resolve() {
    let rel = set(&["src/parser.rs", "src/graph.rs"]);
    assert_eq!(
        modkei_core::graph::rust::resolve(&root(), "/r/src/lib.rs", "mod:parser", &rel),
        Some("src/parser.rs".to_string())
    );
    assert_eq!(
        modkei_core::graph::rust::resolve(&root(), "/r/src/lib.rs", "use:graph", &rel),
        Some("src/graph.rs".to_string())
    );
    assert_eq!(
        modkei_core::graph::rust::resolve(&root(), "/r/src/lib.rs", "other", &rel),
        None
    );
}

fn chars(s: &str) -> Vec<char> {
    s.chars().collect()
}

#[test]
fn a_captured_part_goes_back_into_its_pattern() {
    for (pattern, raw, capture) in [
        ("@app/*", "@app/util/x", "util/x"),
        ("lib/*.js", "lib/a.js", "a"),
        ("*", "anything", "anything"),
    ] {
        let cap = match_path_pattern(&chars(pattern), &chars(raw)).unwrap();
        assert_eq!(cap, chars(capture));
        assert_eq!(apply_replacement(&chars(pattern), &cap), chars(raw));
    }
    assert_eq!(match_path_pattern(&chars("lib/*.js"), &chars("src/a.js")), None);
}
