//! Resolution of `module:` import keys: relative modules, Python and Go.

use vstd::prelude::*;
use crate::path::{join, parent, parse_path, PathModel, PathView};
use crate::resolver::common::{resolve_candidate, resolved_candidate, strs_view};
use crate::resolver::python::{dotted_path, dotted_to_path, py_exts, py_exts_exec};
use crate::text::{
    append_chars, chars_contains, chars_ends_with, chars_replace, chars_strip_prefix, contains,
    ends_with, replace_char, strip_prefix, to_chars,
};

verus! {

pub open spec fn module_tag() -> Seq<char> {
    seq!['m', 'o', 'd', 'u', 'l', 'e', ':']
}

/// What `resolve_relative` returns.
pub open spec fn resolve_relative_spec(
    from: Seq<char>,
    raw: Seq<char>,
    root: PathView,
    set: Seq<String>,
    exts: Seq<Seq<char>>,
) -> Option<Seq<char>> {
    match strip_prefix(raw, module_tag()) {
        None => None,
        Some(module) => if !(module.len() > 0 && module[0] == '.') {
            None
        } else {
            match parent(parse_path(from)) {
                None => None,
                Some(dir) => resolved_candidate(root, join(dir, parse_path(module)), set, exts),
            }
        },
    }
}

/// What `resolve_python` returns.
pub open spec fn resolve_python_key_spec(
    from: Seq<char>,
    raw: Seq<char>,
    root: PathView,
    set: Seq<String>,
) -> Option<Seq<char>> {
    match strip_prefix(raw, module_tag()) {
        None => None,
        Some(module) => if module.len() > 0 && module[0] == '.' {
            resolve_relative_spec(from, raw, root, set, py_exts())
        } else {
            resolved_candidate(root, dotted_path(module), set, py_exts())
        },
    }
}

/// Whether `path` names the Go package `suffix`: it contains `suffix/` or
/// ends with `suffix.go`.
pub open spec fn go_matches(path: Seq<char>, suffix: Seq<char>) -> bool {
    contains(path, suffix + seq!['/']) || ends_with(path, suffix + seq!['.', 'g', 'o'])
}

/// The first path of `set` that names the Go package `suffix`.
pub open spec fn first_go_match(set: Seq<String>, suffix: Seq<char>) -> Option<Seq<char>>
    decreases set.len(),
{
    if set.len() == 0 {
        None
    } else if go_matches(set[0]@, suffix) {
        Some(set[0]@)
    } else {
        first_go_match(set.drop_first(), suffix)
    }
}

/// What `resolve_go` returns.
pub open spec fn resolve_go_key_spec(raw: Seq<char>, set: Seq<String>) -> Option<Seq<char>> {
    match strip_prefix(raw, module_tag()) {
        None => None,
        Some(m) => first_go_match(set, replace_char(m, '\\', seq!['/'])),
    }
}

fn module_tag_exec() -> (res: Vec<char>)
    ensures
        res@ == module_tag(),
{
    let v = vec!['m', 'o', 'd', 'u', 'l', 'e', ':'];
    proof {
        assert(v@ =~= module_tag());
    }
    v
}

/// Resolves a `module:` key that starts with `.` against the importing
/// file's directory.
pub fn resolve_relative(
    from: &str,
    raw: &str,
    root: &PathModel,
    rel_set: &[String],
    exts: &[&str],
) -> (res: Option<String>)
    ensures
        match res {
            Some(r) => resolve_relative_spec(from@, raw@, root@, rel_set@, strs_view(exts@))
                == Some(r@),
            None => resolve_relative_spec(from@, raw@, root@, rel_set@, strs_view(exts@)) is None,
        },
{
    let r = to_chars(raw);
    let module = match chars_strip_prefix(&r, &module_tag_exec()) {
        Some(m) => m,
        None => return None,
    };
    if !(module.len() > 0 && module[0] == '.') {
        return None;
    }
    let dir = match PathModel::from_str(from).parent() {
        Some(d) => d,
        None => return None,
    };
    let cand = dir.join_chars(&module);
    resolve_candidate(root, &cand, rel_set, exts)
}

/// Resolves a Python `module:` key.
pub fn resolve_python(from: &str, raw: &str, root: &PathModel, rel_set: &[String]) -> (res: Option<
    String,
>)
    ensures
        match res {
            Some(r) => resolve_python_key_spec(from@, raw@, root@, rel_set@) == Some(r@),
            None => resolve_python_key_spec(from@, raw@, root@, rel_set@) is None,
        },
{
    let r = to_chars(raw);
    let module = match chars_strip_prefix(&r, &module_tag_exec()) {
        Some(m) => m,
        None => return None,
    };
    let exts = py_exts_exec();
    if module.len() > 0 && module[0] == '.' {
        return resolve_relative(from, raw, root, rel_set, &exts);
    }
    resolve_candidate(root, &dotted_to_path(&module), rel_set, &exts)
}

/// The first path of `set` that names the Go package `suffix`.
pub fn find_go_match(set: &[String], suffix: &[char]) -> (res: Option<String>)
    ensures
        match res {
            Some(r) => first_go_match(set@, suffix@) == Some(r@),
            None => first_go_match(set@, suffix@) is None,
        },
{
    let mut dir_form: Vec<char> = Vec::new();
    append_chars(&mut dir_form, suffix);
    dir_form.push('/');
    let mut file_form: Vec<char> = Vec::new();
    append_chars(&mut file_form, suffix);
    file_form.push('.');
    file_form.push('g');
    file_form.push('o');
    proof {
        assert(dir_form@ =~= suffix@ + seq!['/']);
        assert(file_form@ =~= suffix@ + seq!['.', 'g', 'o']);
        assert(set@.skip(0) =~= set@);
    }
    let mut i: usize = 0;
    while i < set.len()
        invariant
            i <= set@.len(),
            dir_form@ == suffix@ + seq!['/'],
            file_form@ == suffix@ + seq!['.', 'g', 'o'],
            first_go_match(set@, suffix@) == first_go_match(set@.skip(i as int), suffix@),
        decreases set.len() - i,
    {
        proof {
            assert(set@.skip(i as int)[0] == set@[i as int]);
            assert(set@.skip(i as int).drop_first() =~= set@.skip(i + 1));
        }
        let p = to_chars(set[i].as_str());
        if chars_contains(&p, &dir_form) || chars_ends_with(&p, &file_form) {
            return Some(set[i].clone());
        }
        i = i + 1;
    }
    None
}

/// Resolves a Go `module:` key to the first file whose path names the package.
pub fn resolve_go(raw: &str, rel_set: &[String]) -> (res: Option<String>)
    ensures
        match res {
            Some(r) => resolve_go_key_spec(raw@, rel_set@) == Some(r@),
            None => resolve_go_key_spec(raw@, rel_set@) is None,
        },
{
    let r = to_chars(raw);
    let m = match chars_strip_prefix(&r, &module_tag_exec()) {
        Some(m) => m,
        None => return None,
    };
    let slash = vec!['/'];
    proof {
        assert(slash@ =~= seq!['/']);
    }
    let suffix = chars_replace(&m, '\\', &slash);
    find_go_match(rel_set, &suffix)
}

} // verus!
