//! Resolution of imports to scanned files, by the importing file's language.

pub mod c_family;
pub mod common;
pub mod go;
pub mod python;
pub mod rust;
pub mod typescript;

use vstd::prelude::*;
use crate::lang::Language;
use crate::model::ImportEdge;
use crate::path::{PathModel, PathView};
use crate::resolver::common::FileSystemView;

verus! {

/// What `resolve` returns: the resolution of the import's language, none
/// for the languages without one.
pub open spec fn resolve_spec(
    root: PathView,
    import: ImportEdge,
    set: Seq<String>,
    fs: FileSystemView,
) -> Option<Seq<char>> {
    match import.language {
        Language::TypeScript | Language::JavaScript => typescript::resolve_ts_spec(
            root,
            import,
            set,
            fs,
        ),
        Language::Python => python::resolve_python_spec(root, import, set),
        Language::Rust => rust::resolve_rust(root, import, set),
        Language::Go => go::resolve_go_spec(root, import, set, fs),
        Language::C | Language::Cpp => c_family::resolve_include_spec(root, import, set),
        _ => None,
    }
}

/// Resolves an import to the relative path of a scanned file in `rel_set`.
pub fn resolve(root: &PathModel, import: &ImportEdge, rel_set: &[String], fs: &FileSystemView) -> (res:
    Option<String>)
    ensures
        match res {
            Some(r) => resolve_spec(root@, *import, rel_set@, *fs) == Some(r@),
            None => resolve_spec(root@, *import, rel_set@, *fs) is None,
        },
{
    match import.language {
        Language::TypeScript | Language::JavaScript => typescript::resolve(root, import, rel_set, fs),
        Language::Python => python::resolve(root, import, rel_set),
        Language::Rust => rust::resolve(root, import, rel_set),
        Language::Go => go::resolve(root, import, rel_set, fs),
        Language::C | Language::Cpp => c_family::resolve(root, import, rel_set),
        Language::Unknown | Language::Java | Language::Bash | Language::Make | Language::CMake => {
            None
        },
    }
}

proof fn lemma_first_in_set(opts: Seq<Seq<char>>, set: Seq<String>)
    ensures
        common::first_in_set(opts, set) matches Some(r) ==> common::in_set(set, r),
    decreases opts.len(),
{
    if opts.len() > 0 && !common::in_set(set, opts[0]) {
        lemma_first_in_set(opts.drop_first(), set);
    }
}

proof fn lemma_resolved_candidate(root: PathView, cand: PathView, set: Seq<String>, exts: Seq<Seq<char>>)
    ensures
        common::resolved_candidate(root, cand, set, exts) matches Some(r) ==> common::in_set(set, r),
{
    lemma_first_in_set(common::candidate_options(common::candidate_base(root, cand), exts), set);
}

proof fn lemma_first_resolved(root: PathView, cands: Seq<PathView>, set: Seq<String>, exts: Seq<Seq<char>>)
    ensures
        rust::first_resolved(root, cands, set, exts) matches Some(r) ==> common::in_set(set, r),
    decreases cands.len(),
{
    if cands.len() > 0 {
        lemma_resolved_candidate(root, cands[0], set, exts);
        lemma_first_resolved(root, cands.drop_first(), set, exts);
    }
}

proof fn lemma_first_go_match(set: Seq<String>, suffix: Seq<char>)
    ensures
        crate::graph::module::first_go_match(set, suffix) matches Some(r) ==> common::in_set(set, r),
    decreases set.len(),
{
    if set.len() > 0 {
        if crate::graph::module::go_matches(set[0]@, suffix) {
            assert(set[0]@ == set[0]@);
        } else {
            lemma_first_go_match(set.drop_first(), suffix);
            if crate::graph::module::first_go_match(set, suffix) is Some {
                let r = crate::graph::module::first_go_match(set, suffix)->0;
                let i = choose|i: int| 0 <= i < set.drop_first().len() && (#[trigger] set.drop_first()[i])@ == r;
                assert(set[i + 1] == set.drop_first()[i]);
            }
        }
    }
}

/// An import that `resolve` resolves names one of the scanned files
/// `set`: what it returns is always one of them.
pub proof fn law_resolved_in_set(root: PathView, import: ImportEdge, set: Seq<String>, fs: FileSystemView)
    ensures
        resolve_spec(root, import, set, fs) matches Some(r) ==> common::in_set(set, r),
{
    let from = crate::path::parse_path(import.from@);
    match import.language {
        Language::TypeScript | Language::JavaScript => {
            let target = import.target@;
            match crate::path::parent(from) {
                Some(dir) => lemma_resolved_candidate(
                    root,
                    crate::path::join(dir, crate::path::parse_path(target)),
                    set,
                    typescript::ts_exts(),
                ),
                None => {},
            }
            lemma_first_resolved(
                root,
                typescript::config_path_candidates_spec(root, import, fs),
                set,
                typescript::ts_exts(),
            );
        },
        Language::Python => {
            let raw = import.target@;
            lemma_resolved_candidate(root, python::dotted_path(raw), set, python::py_exts());
            if raw.len() > 0 && raw[0] == '.' {
                let dots = crate::text::leading_count(raw, '.');
                let rest = raw.skip(dots as int);
                match crate::path::parent(from) {
                    Some(p) => match python::parent_n(p, (dots - 1) as nat) {
                        Some(base) => {
                            let cand = if rest.len() == 0 {
                                base
                            } else {
                                crate::path::join(base, python::dotted_path(rest))
                            };
                            lemma_resolved_candidate(root, cand, set, python::py_exts());
                        },
                        None => {},
                    },
                    None => {},
                }
            }
        },
        Language::Rust => {
            match crate::path::parent(from) {
                Some(dir) => {
                    lemma_resolved_candidate(
                        root,
                        crate::path::join(dir, crate::path::parse_path(crate::text::trim(import.target@))),
                        set,
                        rust::rs_exts(),
                    );
                    let src_root = match rust::nearest_src(from) {
                        Some(s) => s,
                        None => root,
                    };
                    lemma_first_resolved(
                        root,
                        rust::rust_candidates(src_root, dir, import.target@),
                        set,
                        rust::rs_exts(),
                    );
                },
                None => {},
            }
        },
        Language::Go => {
            let target = import.target@;
            let module = go::nearest_go_module_spec(root, from, fs);
            let suffix = go::module_suffix(target, module);
            match (module, suffix) {
                (Some((dir, _)), Some(s)) => lemma_resolved_candidate(
                    root,
                    crate::path::join(dir, crate::path::parse_path(s)),
                    set,
                    go::go_exts(),
                ),
                _ => {},
            }
            let s = match suffix {
                Some(s) => s,
                None => crate::text::replace_char(target, '\\', seq!['/']),
            };
            lemma_resolved_candidate(root, crate::path::parse_path(s), set, go::go_exts());
            lemma_first_go_match(set, s);
        },
        Language::C | Language::Cpp => {
            match crate::path::parent(from) {
                Some(dir) => lemma_first_resolved(
                    root,
                    c_family::include_candidates(root, dir, import.target@),
                    set,
                    c_family::c_exts(),
                ),
                None => {},
            }
        },
        _ => {},
    }
}

} // verus!
