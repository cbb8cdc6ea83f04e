//! C and C++ `#include` targets.

use vstd::prelude::*;
use crate::model::ImportEdge;
use crate::parser::RawImportKind;
use crate::path::{join, parent, parse_path, PathModel, PathView};
use crate::resolver::common::{resolve_candidate, strs_view};
use crate::resolver::rust::{first_resolved, first_resolved_candidate};

verus! {

pub open spec fn c_exts() -> Seq<Seq<char>> {
    seq![
        seq!['h'],
        seq!['h', 'p', 'p'],
        seq!['c'],
        seq!['c', 'p', 'p'],
        seq!['c', 'x', 'x'],
        seq!['c', 'c'],
    ]
}

/// The places an include is looked for: next to the including file, at the
/// root, under `include/` and under `src/`.
pub open spec fn include_candidates(root: PathView, dir: PathView, target: Seq<char>) -> Seq<
    PathView,
> {
    seq![
        join(dir, parse_path(target)),
        join(root, parse_path(target)),
        join(join(root, parse_path(seq!['i', 'n', 'c', 'l', 'u', 'd', 'e'])), parse_path(target)),
        join(join(root, parse_path(seq!['s', 'r', 'c'])), parse_path(target)),
    ]
}

/// What `resolve` returns for an include.
pub open spec fn resolve_include_spec(root: PathView, import: ImportEdge, set: Seq<String>) -> Option<
    Seq<char>,
> {
    if import.kind != RawImportKind::Include {
        None
    } else {
        match parent(parse_path(import.from@)) {
            None => None,
            Some(dir) => first_resolved(
                root,
                include_candidates(root, dir, import.target@),
                set,
                c_exts(),
            ),
        }
    }
}

fn c_exts_exec() -> (res: [&'static str; 6])
    ensures
        strs_view(res@) == c_exts(),
{
    let e: [&'static str; 6] = ["h", "hpp", "c", "cpp", "cxx", "cc"];
    proof {
        reveal_strlit("h");
        reveal_strlit("hpp");
        reveal_strlit("c");
        reveal_strlit("cpp");
        reveal_strlit("cxx");
        reveal_strlit("cc");
        assert(strs_view(e@) =~= c_exts()) by {
            assert(e@[0]@ =~= seq!['h']);
            assert(e@[1]@ =~= seq!['h', 'p', 'p']);
            assert(e@[2]@ =~= seq!['c']);
            assert(e@[3]@ =~= seq!['c', 'p', 'p']);
            assert(e@[4]@ =~= seq!['c', 'x', 'x']);
            assert(e@[5]@ =~= seq!['c', 'c']);
        }
    }
    e
}

/// Resolves an include to the first existing file among its candidates.
pub fn resolve(root: &PathModel, import: &ImportEdge, rel_set: &[String]) -> (res: Option<String>)
    ensures
        match res {
            Some(r) => resolve_include_spec(root@, *import, rel_set@) == Some(r@),
            None => resolve_include_spec(root@, *import, rel_set@) is None,
        },
{
    if import.kind != RawImportKind::Include {
        return None;
    }
    let from = PathModel::from_str(import.from.as_str());
    let dir = match from.parent() {
        Some(d) => d,
        None => return None,
    };
    let target = PathModel::from_str(import.target.as_str());
    let inc_dir = vec!['i', 'n', 'c', 'l', 'u', 'd', 'e'];
    let src = vec!['s', 'r', 'c'];
    proof {
        assert(inc_dir@ =~= seq!['i', 'n', 'c', 'l', 'u', 'd', 'e']);
        assert(src@ =~= seq!['s', 'r', 'c']);
    }
    let mut cands: Vec<PathModel> = Vec::new();
    cands.push(dir.join(&target));
    cands.push(root.join(&target));
    cands.push(root.join_chars(&inc_dir).join(&target));
    cands.push(root.join_chars(&src).join(&target));
    proof {
        assert(cands@.map_values(|p: PathModel| p@) =~= include_candidates(
            root@,
            dir@,
            import.target@,
        ));
    }
    let exts = c_exts_exec();
    first_resolved_candidate(root, &cands, rel_set, &exts)
}

} // verus!
