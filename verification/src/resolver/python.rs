//! Python imports: dotted module paths, relative to the package for leading dots.

use vstd::prelude::*;
use crate::model::ImportEdge;
use crate::path::{join, parent, parse_path, PathModel, PathView};
use crate::resolver::common::{resolve_candidate, resolved_candidate, strs_view};
use crate::text::{chars_replace, leading_count, replace_char, to_chars};

verus! {

/// The `n`-th ancestor of `p`.
pub open spec fn parent_n(p: PathView, n: nat) -> Option<PathView>
    decreases n,
{
    if n == 0 {
        Some(p)
    } else {
        match parent(p) {
            Some(q) => parent_n(q, (n - 1) as nat),
            None => None,
        }
    }
}

pub open spec fn py_exts() -> Seq<Seq<char>> {
    seq![seq!['p', 'y']]
}

/// A dotted module path as a path: each `.` becomes `/`.
pub open spec fn dotted_path(s: Seq<char>) -> PathView {
    parse_path(replace_char(s, '.', seq!['/']))
}

/// What `resolve` returns for a Python import.
pub open spec fn resolve_python_spec(root: PathView, import: ImportEdge, set: Seq<String>) -> Option<
    Seq<char>,
> {
    let raw = import.target@;
    if raw.len() > 0 && raw[0] == '.' {
        let dots = leading_count(raw, '.');
        let rest = raw.skip(dots as int);
        match parent(parse_path(import.from@)) {
            None => None,
            Some(p) => match parent_n(p, (dots - 1) as nat) {
                None => None,
                Some(base) => {
                    let cand = if rest.len() == 0 {
                        base
                    } else {
                        join(base, dotted_path(rest))
                    };
                    resolved_candidate(root, cand, set, py_exts())
                },
            },
        }
    } else {
        resolved_candidate(root, dotted_path(raw), set, py_exts())
    }
}

pub fn py_exts_exec() -> (res: [&'static str; 1])
    ensures
        strs_view(res@) == py_exts(),
{
    let e: [&'static str; 1] = ["py"];
    proof {
        reveal_strlit("py");
        assert(strs_view(e@) =~= py_exts()) by {
            assert(e@[0]@ =~= seq!['p', 'y']);
        }
    }
    e
}

/// A dotted module path as a path.
pub fn dotted_to_path(s: &[char]) -> (res: PathModel)
    ensures
        res@ == dotted_path(s@),
{
    let slash = vec!['/'];
    proof {
        assert(slash@ =~= seq!['/']);
    }
    let r = chars_replace(s, '.', &slash);
    PathModel::parse(&r)
}

/// Resolves a Python import: `..a.b` from `pkg/mod.py` looks for `a/b`
/// one directory above `pkg`; `a.b` looks for `a/b` under the root.
pub fn resolve(root: &PathModel, import: &ImportEdge, rel_set: &[String]) -> (res: Option<String>)
    ensures
        match res {
            Some(r) => resolve_python_spec(root@, *import, rel_set@) == Some(r@),
            None => resolve_python_spec(root@, *import, rel_set@) is None,
        },
{
    let raw = to_chars(import.target.as_str());
    let exts = py_exts_exec();
    if raw.len() > 0 && raw[0] == '.' {
        let mut dots: usize = 0;
        while dots < raw.len() && raw[dots] == '.'
            invariant
                dots <= raw@.len(),
                forall|k: int| 0 <= k < dots ==> raw@[k] == '.',
            decreases raw.len() - dots,
        {
            dots = dots + 1;
        }
        proof {
            crate::text::lemma_leading_count(raw@, '.', dots as int);
        }
        let rest = crate::text::slice_copy(&raw, dots, raw.len());
        proof {
            assert(rest@ =~= raw@.skip(dots as int));
        }
        let from = PathModel::from_str(import.from.as_str());
        let mut base = match from.parent() {
            Some(p) => p,
            None => return None,
        };
        let ghost p0 = base@;
        let mut k: usize = 1;
        while k < dots
            invariant
                1 <= k <= dots,
                parent_n(p0, (dots - 1) as nat) == parent_n(base@, (dots - k) as nat),
                raw@ == import.target@,
                raw@.len() > 0 && raw@[0] == '.',
                dots == leading_count(raw@, '.'),
                parent(parse_path(import.from@)) == Some(p0),
                rest@ == raw@.skip(dots as int),
            decreases dots - k,
        {
            base = match base.parent() {
                Some(q) => q,
                None => {
                    proof {
                        assert(parent_n(base@, (dots - k) as nat) is None);
                    }
                    return None;
                },
            };
            k = k + 1;
        }
        let cand = if rest.len() == 0 {
            base
        } else {
            base.join(&dotted_to_path(&rest))
        };
        return resolve_candidate(root, &cand, rel_set, &exts);
    }
    resolve_candidate(root, &dotted_to_path(&raw), rel_set, &exts)
}

} // verus!
