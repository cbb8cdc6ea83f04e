//! Resolution of `mod:` and `use:` import keys of Rust files.

use vstd::prelude::*;
use crate::path::{join, parent, parse_path, PathModel, PathView};
use crate::resolver::common::{resolve_candidate, resolved_candidate};
use crate::resolver::rust::{nearest_src, nearest_src_dir, rs_exts};
use crate::text::{chars_strip_prefix, chars_trim, strip_prefix, to_chars, trim};

verus! {

/// What `resolve` returns for a `mod:` or `use:` key.
pub open spec fn resolve_key_spec(
    root: PathView,
    from: Seq<char>,
    raw: Seq<char>,
    set: Seq<String>,
) -> Option<Seq<char>> {
    let f = parse_path(from);
    match parent(f) {
        None => None,
        Some(dir) => match strip_prefix(raw, seq!['m', 'o', 'd', ':']) {
            Some(module) => resolved_candidate(
                root,
                join(dir, parse_path(trim(module))),
                set,
                rs_exts(),
            ),
            None => match strip_prefix(raw, seq!['u', 's', 'e', ':']) {
                None => None,
                Some(module) => {
                    let src_root = match nearest_src(f) {
                        Some(s) => s,
                        None => root,
                    };
                    match resolved_candidate(root, join(src_root, parse_path(module)), set, rs_exts()) {
                        Some(r) => Some(r),
                        None => resolved_candidate(root, join(dir, parse_path(module)), set, rs_exts()),
                    }
                },
            },
        },
    }
}

/// Resolves a `mod:` key next to the importing file, and a `use:` key under
/// the nearest `src` directory, then next to the importing file.
pub fn resolve(root: &PathModel, from: &str, raw: &str, rel_set: &[String]) -> (res: Option<String>)
    ensures
        match res {
            Some(r) => resolve_key_spec(root@, from@, raw@, rel_set@) == Some(r@),
            None => resolve_key_spec(root@, from@, raw@, rel_set@) is None,
        },
{
    let f = PathModel::from_str(from);
    let dir = match f.parent() {
        Some(d) => d,
        None => return None,
    };
    let exts: [&'static str; 1] = ["rs"];
    proof {
        reveal_strlit("rs");
        assert(crate::resolver::common::strs_view(exts@) =~= rs_exts()) by {
            assert(exts@[0]@ =~= seq!['r', 's']);
        }
    }
    let r = to_chars(raw);
    let mod_tag = vec!['m', 'o', 'd', ':'];
    let use_tag = vec!['u', 's', 'e', ':'];
    proof {
        assert(mod_tag@ =~= seq!['m', 'o', 'd', ':']);
        assert(use_tag@ =~= seq!['u', 's', 'e', ':']);
    }
    if let Some(module) = chars_strip_prefix(&r, &mod_tag) {
        let t = chars_trim(&module);
        return resolve_candidate(root, &dir.join_chars(&t), rel_set, &exts);
    }
    let module = match chars_strip_prefix(&r, &use_tag) {
        Some(m) => m,
        None => return None,
    };
    let src_root = match nearest_src_dir(&f) {
        Some(s) => s,
        None => PathModel { absolute: root.absolute, parts: crate::path::copy_parts(&root.parts, 0, root.parts.len()) },
    };
    proof {
        assert(root.parts.deep_view().subrange(0, root.parts@.len() as int) =~= root.parts.deep_view());
    }
    match resolve_candidate(root, &src_root.join_chars(&module), rel_set, &exts) {
        Some(r) => Some(r),
        None => resolve_candidate(root, &dir.join_chars(&module), rel_set, &exts),
    }
}

} // verus!
