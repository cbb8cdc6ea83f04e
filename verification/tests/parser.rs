use modkei_core::parser::{extract_imports, RawImportKind};
use modkei_core::Language;

fn pairs(source: &str, language: Language) -> Vec<(String, RawImportKind)> {
    extract_imports(source, language)
        .into_iter()
        .map(|import| (import.target, import.kind))
        .collect()
}

fn triples(source: &str, language: Language) -> Vec<(String, RawImportKind, Vec<String>)> {
    extract_imports(source, language)
        .into_iter()
        .map(|import| (import.target, import.kind, import.symbols))
        .collect()
}

#[test]
fn extracts_quoted_and_system_includes() {
    assert_eq!(
        pairs(
            r#"
            // #include "commented.h"
            #include "local.h"
            #include <stdio.h>
            "#,
            Language::C,
        ),
        vec![
            ("local.h".to_string(), RawImportKind::Include),
            ("stdio.h".to_string(), RawImportKind::Include),
        ]
    );

    assert_eq!(
        pairs(
            r#"
            /* #include "commented.hpp" */
            #include "local.hpp"
            #include <vector>
            "#,
            Language::Cpp,
        ),
        vec![
            ("local.hpp".to_string(), RawImportKind::Include),
            ("vector".to_string(), RawImportKind::Include),
        ]
    );
}

#[test]
fn extracts_single_group_alias_blank_and_dot_imports() {
    assert_eq!(
        pairs(
            r#"
            package main

            import "fmt"
            import (
                . "example.com/project/dot"
                _ "example.com/project/blank"
                alias "example.com/project/internal/tool"
                "example.com/project/pkg"
            )
            // import "example.com/project/commented"
            "#,
            Language::Go,
        ),
        vec![
            (
                "example.com/project/blank".to_string(),
                RawImportKind::Module
            ),
            ("example.com/project/dot".to_string(), RawImportKind::Module),
            (
                "example.com/project/internal/tool".to_string(),
                RawImportKind::Module,
            ),
            ("example.com/project/pkg".to_string(), RawImportKind::Module),
            ("fmt".to_string(), RawImportKind::Module),
        ]
    );
}

#[test]
fn extracts_normal_and_static_imports() {
    assert_eq!(
        pairs(
            r#"
            // import commented.Fake;
            import java.util.List;
            import static java.util.Collections.emptyList;
            "#,
            Language::Java,
        ),
        vec![
            (
                "java.util.Collections.emptyList".to_string(),
                RawImportKind::Module,
            ),
            ("java.util.List".to_string(), RawImportKind::Module),
        ]
    );
}

#[test]
fn extracts_imports_from_imports_aliases_and_nested_imports() {
    assert_eq!(
        triples(
            r#"
            import os, sys
            import package.module as module
            from .utils import thing, other as alias
            from ..core.config import Settings
            def load():
                import nested.real
            # from commented import fake
            "#,
            Language::Python,
        ),
        vec![
            (
                "..core.config".to_string(),
                RawImportKind::Symbol,
                vec!["Settings".to_string()],
            ),
            (
                ".utils".to_string(),
                RawImportKind::Symbol,
                vec!["thing".to_string(), "other".to_string()],
            ),
            ("nested.real".to_string(), RawImportKind::Module, Vec::new()),
            ("os".to_string(), RawImportKind::Module, Vec::new()),
            (
                "package.module".to_string(),
                RawImportKind::Module,
                Vec::new(),
            ),
            ("sys".to_string(), RawImportKind::Module, Vec::new()),
        ]
    );
}

#[test]
fn extracts_mods_and_use_trees() {
    assert_eq!(
        pairs(
            r#"
            mod parser;
            pub use parser::parse;
            use crate::graph::{Edge, Node};
            use super::module::Resolver as ModuleResolver;
            fn load() {
                use self::local::Thing;
            }
            // use crate::commented::Fake;
            "#,
            Language::Rust,
        ),
        vec![
            ("crate::graph::Edge".to_string(), RawImportKind::Symbol),
            ("crate::graph::Node".to_string(), RawImportKind::Symbol),
            ("parser".to_string(), RawImportKind::Module),
            ("parser::parse".to_string(), RawImportKind::Symbol),
            ("self::local::Thing".to_string(), RawImportKind::Symbol),
            ("super::module::Resolver".to_string(), RawImportKind::Symbol),
        ]
    );
}

#[test]
fn extracts_bash_make_and_cmake_includes_without_comments() {
    assert_eq!(
        pairs(
            r#"
            # source commented.sh
source real.sh
. ./other.sh
            "#,
            Language::Bash,
        ),
        vec![
            ("./other.sh".to_string(), RawImportKind::Include),
            ("real.sh".to_string(), RawImportKind::Include),
        ]
    );

    assert_eq!(
        pairs(
            "# include commented.mk\ninclude real.mk\n-include optional.mk\nsinclude fallback.mk\n",
            Language::Make,
        ),
        vec![
            ("fallback.mk".to_string(), RawImportKind::Include),
            ("optional.mk".to_string(), RawImportKind::Include),
            ("real.mk".to_string(), RawImportKind::Include),
        ]
    );

    assert_eq!(
        pairs(
            r#"
            # include(commented)
            include(real)
            add_subdirectory(src/lib)
            "#,
            Language::CMake,
        ),
        vec![
            ("real".to_string(), RawImportKind::Include),
            ("src/lib".to_string(), RawImportKind::Include),
        ]
    );
}

#[test]
fn extracts_static_dynamic_side_effect_and_reexports() {
    assert_eq!(
        pairs(
            r#"
            import "reflect-metadata";
            import Graph from "graphology";
            import { x as y } from "./local";
            export * from "../shared";
            export { z } from "./reexport";
            async function load() {
                return import("./dynamic");
            }
            // import fake from "./commented";
            "#,
            Language::TypeScript,
        ),
        vec![
            ("../shared".to_string(), RawImportKind::ReExport),
            ("./dynamic".to_string(), RawImportKind::Dynamic),
            ("./local".to_string(), RawImportKind::Module),
            ("./reexport".to_string(), RawImportKind::ReExport),
            ("graphology".to_string(), RawImportKind::Module),
            ("reflect-metadata".to_string(), RawImportKind::SideEffect),
        ]
    );
}
