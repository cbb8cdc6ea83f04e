use modkei_core::lang::Language;
use modkei_core::parser::{extract_from_nodes, extract_imports, unquote, RawImport, RawImportKind};
use modkei_core::syntax::SyntaxNode;

fn kinds(source: &str, language: Language) -> Vec<(String, RawImportKind)> {
    extract_imports(source, language)
        .into_iter()
        .map(|import| (import.target, import.kind))
        .collect()
}

fn node(kind: &str, depth: u32, start: usize, end: usize, text: &str) -> SyntaxNode {
    SyntaxNode {
        kind: kind.to_string(),
        field: None,
        depth,
        start,
        end,
        text: text.to_string(),
    }
}

#[test]
fn javascript_reads_like_typescript() {
    assert_eq!(
        kinds("import a from \"./a\";\nrequire(\"./b\");\n", Language::JavaScript),
        vec![("./a".to_string(), RawImportKind::Module)]
    );
}

#[test]
fn unknown_language_has_no_imports() {
    assert!(extract_imports("import x from \"y\";", Language::Unknown).is_empty());
}

#[test]
fn an_export_of_a_dynamic_import_is_both() {
    assert_eq!(
        kinds("export const lazy = import(\"./d\");\n", Language::TypeScript),
        vec![
            ("./d".to_string(), RawImportKind::ReExport),
            ("./d".to_string(), RawImportKind::Dynamic),
        ]
    );
}

#[test]
fn rust_self_and_glob_in_use_lists() {
    assert_eq!(
        kinds("use a::{self, b::*};\nmod inline {}\nmod m;\n", Language::Rust),
        vec![
            ("a".to_string(), RawImportKind::Symbol),
            ("a::b".to_string(), RawImportKind::Symbol),
            ("m".to_string(), RawImportKind::Module),
        ]
    );
}

#[test]
fn python_parenthesised_names() {
    let imports = extract_imports("from x.y import (a as b, c)\n", Language::Python);
    assert_eq!(imports.len(), 1);
    assert_eq!(imports[0].target, "x.y");
    assert_eq!(imports[0].kind, RawImportKind::Symbol);
    assert_eq!(imports[0].symbols, vec!["a".to_string(), "c".to_string()]);
}

#[test]
fn cmake_command_names_ignore_case_and_quotes_are_dropped() {
    assert_eq!(
        kinds("INCLUDE(Foo)\nadd_subdirectory(\"lib dir\")\nmessage(x)\n", Language::CMake),
        vec![
            ("Foo".to_string(), RawImportKind::Include),
            ("lib dir".to_string(), RawImportKind::Include),
        ]
    );
}

#[test]
fn make_includes_every_word() {
    assert_eq!(
        kinds("include a.mk b.mk\n", Language::Make),
        vec![
            ("a.mk".to_string(), RawImportKind::Include),
            ("b.mk".to_string(), RawImportKind::Include),
        ]
    );
}

#[test]
fn bash_source_with_quotes() {
    assert_eq!(
        kinds("source \"lib.sh\"\necho hi\n", Language::Bash),
        vec![("lib.sh".to_string(), RawImportKind::Include)]
    );
}

#[test]
fn repeated_imports_on_separate_lines_stay_apart() {
    let imports = extract_imports("#include \"a.h\"\n#include \"a.h\"\n", Language::C);
    assert_eq!(imports.len(), 2);
    assert!(imports[0].byte_start < imports[1].byte_start);
    assert_eq!(imports[0].target, imports[1].target);
}

#[test]
fn reported_imports_are_in_order() {
    let imports = extract_imports(
        "import \"z\"\nimport \"a\"\nimport (\n\"m\"\n\"a\"\n)\n",
        Language::Go,
    );
    let targets: Vec<&str> = imports.iter().map(|i| i.target.as_str()).collect();
    assert_eq!(targets, vec!["a", "a", "m", "z"]);
    for pair in imports.windows(2) {
        assert!(
            pair[0].target < pair[1].target
                || (pair[0].target == pair[1].target && pair[0].byte_start <= pair[1].byte_start)
        );
        assert_ne!(pair[0], pair[1]);
    }
}

#[test]
fn reads_a_tree_built_by_hand() {
    let nodes = vec![
        node("translation_unit", 0, 0, 16, "#include \"x.h\"\n"),
        node("preproc_include", 1, 0, 15, "#include \"x.h\"\n"),
        node("#include", 2, 0, 8, "#include"),
        node("string_literal", 2, 9, 14, "\"x.h\""),
        node("preproc_include", 1, 15, 16, "\n"),
        node("string_literal", 2, 15, 16, "\"\""),
    ];
    let imports: Vec<RawImport> = extract_from_nodes(&nodes, Language::Cpp);
    assert_eq!(imports.len(), 1);
    assert_eq!(imports[0].target, "x.h");
    assert_eq!(imports[0].kind, RawImportKind::Include);
    assert_eq!((imports[0].byte_start, imports[0].byte_end), (9, 14));
}

#[test]
fn unquote_strips_each_kind_of_quote() {
    assert_eq!(unquote("  \"'`x`'\"  "), "x");
    assert_eq!(unquote("'a\""), "a");
}

#[test]
fn symbols_can_be_set() {
    let nodes = vec![node("identifier", 0, 3, 4, "x")];
    let imported = RawImport::new("m".to_string(), RawImportKind::Symbol, &nodes[0])
        .with_symbols(vec!["a".to_string()]);
    assert_eq!(imported.symbols, vec!["a".to_string()]);
    assert_eq!((imported.byte_start, imported.byte_end), (3, 4));
}
