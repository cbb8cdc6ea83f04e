//! Go imports: package paths under the module declared in the nearest `go.mod`.

use vstd::prelude::*;
use crate::graph::module::{find_go_match, first_go_match};
use crate::model::ImportEdge;
use crate::path::{join, parent, parse_path, render, PathModel, PathView};
use crate::resolver::common::{
    nearest_config_file, nearest_config_file_spec, read_file, read_text, resolve_candidate,
    resolved_candidate, strs_view, FileSystemView,
};
use crate::text::{
    chars_replace, chars_strip_prefix, chars_trim, chars_trim_matches, lines, pieces,
    replace_char, strip_prefix, to_chars, trim, trim_start_char,
};

verus! {

/// The module a Go file belongs to: the directory of its `go.mod` and the
/// module path declared there.
#[derive(Debug, Clone)]
pub struct GoModule {
    pub dir: PathModel,
    pub path: String,
}

pub open spec fn module_kw() -> Seq<char> {
    seq!['m', 'o', 'd', 'u', 'l', 'e', ' ']
}

/// The first line of `ls` that starts with `module ` once trimmed.
pub open spec fn first_module_line(ls: Seq<Seq<char>>) -> Option<Seq<char>>
    decreases ls.len(),
{
    if ls.len() == 0 {
        None
    } else {
        match strip_prefix(trim(ls[0]), module_kw()) {
            Some(rest) => Some(trim(rest)),
            None => first_module_line(ls.drop_first()),
        }
    }
}

/// The module path that a `go.mod` text declares: the rest of its first
/// `module ` line, trimmed, when that is not empty.
pub open spec fn go_module_path(source: Seq<char>) -> Option<Seq<char>> {
    match first_module_line(lines(source)) {
        Some(p) => if p.len() > 0 {
            Some(p)
        } else {
            None
        },
        None => None,
    }
}

pub open spec fn go_exts() -> Seq<Seq<char>> {
    seq![seq!['g', 'o']]
}

pub open spec fn go_mod_names() -> Seq<Seq<char>> {
    seq![seq!['g', 'o', '.', 'm', 'o', 'd']]
}

/// What `nearest_go_module` returns, as the module directory and path.
pub open spec fn nearest_go_module_spec(root: PathView, from: PathView, fs: FileSystemView) -> Option<
    (PathView, Seq<char>),
> {
    match nearest_config_file_spec(from, root, go_mod_names(), fs) {
        None => None,
        Some(go_mod) => match parent(go_mod) {
            None => None,
            Some(dir) => match read_text(fs.contents@, render(go_mod)) {
                None => None,
                Some(source) => match go_module_path(source) {
                    None => None,
                    Some(p) => Some((dir, p)),
                },
            },
        },
    }
}

/// The package path below the module: the target without the module path,
/// leading `/` and with `\` as `/`, when that is not empty.
pub open spec fn module_suffix(target: Seq<char>, module: Option<(PathView, Seq<char>)>) -> Option<
    Seq<char>,
> {
    match module {
        None => None,
        Some((_, mpath)) => match strip_prefix(target, mpath) {
            None => None,
            Some(rest) => {
                let s = replace_char(trim_start_char(rest, '/'), '\\', seq!['/']);
                if s.len() > 0 {
                    Some(s)
                } else {
                    None
                }
            },
        },
    }
}

/// What `resolve` returns for a Go import.
pub open spec fn resolve_go_spec(
    root: PathView,
    import: ImportEdge,
    set: Seq<String>,
    fs: FileSystemView,
) -> Option<Seq<char>> {
    let target = import.target@;
    let module = nearest_go_module_spec(root, parse_path(import.from@), fs);
    let suffix = module_suffix(target, module);
    let in_module = match (module, suffix) {
        (Some((dir, _)), Some(s)) => resolved_candidate(root, join(dir, parse_path(s)), set, go_exts()),
        _ => None,
    };
    match in_module {
        Some(r) => Some(r),
        None => {
            let s = match suffix {
                Some(s) => s,
                None => replace_char(target, '\\', seq!['/']),
            };
            match resolved_candidate(root, parse_path(s), set, go_exts()) {
                Some(r) => Some(r),
                None => first_go_match(set, s),
            }
        },
    }
}

proof fn lemma_lines_first_module(ls: Seq<Seq<char>>, i: int)
    requires
        0 <= i <= ls.len(),
        forall|k: int| 0 <= k < i ==> strip_prefix(trim(#[trigger] ls[k]), module_kw()) is None,
    ensures
        first_module_line(ls) == first_module_line(ls.skip(i)),
    decreases i,
{
    if i > 0 {
        assert(strip_prefix(trim(ls[0]), module_kw()) is None);
        lemma_lines_first_module(ls.drop_first(), i - 1);
        assert(ls.drop_first().skip(i - 1) =~= ls.skip(i));
    } else {
        assert(ls.skip(0) =~= ls);
    }
}

/// The module path that a `go.mod` text declares.
pub fn module_path_of(source: &str) -> (res: Option<String>)
    ensures
        match res {
            Some(p) => go_module_path(source@) == Some(p@),
            None => go_module_path(source@) is None,
        },
{
    let s = to_chars(source);
    let kw = vec!['m', 'o', 'd', 'u', 'l', 'e', ' '];
    proof {
        assert(kw@ =~= module_kw());
    }
    let ls = crate::text::chars_lines(&s);
    let mut i: usize = 0;
    while i < ls.len()
        invariant
            i <= ls@.len(),
            kw@ == module_kw(),
            ls.deep_view() == lines(source@),
            forall|k: int|
                0 <= k < i ==> strip_prefix(trim(#[trigger] ls.deep_view()[k]), module_kw()) is None,
        decreases ls.len() - i,
    {
        let t = chars_trim(&ls[i]);
        proof {
            crate::path::lemma_chars_deep_view(&ls@[i as int]);
        }
        match chars_strip_prefix(&t, &kw) {
            Some(rest) => {
                let v = chars_trim(&rest);
                proof {
                    lemma_lines_first_module(ls.deep_view(), i as int);
                    assert(ls.deep_view().skip(i as int)[0] == ls.deep_view()[i as int]);
                }
                if v.len() > 0 {
                    return Some(crate::text::from_chars(&v));
                } else {
                    return None;
                }
            },
            None => {},
        }
        i = i + 1;
    }
    proof {
        lemma_lines_first_module(ls.deep_view(), ls@.len() as int);
    }
    None
}

/// The module of the nearest `go.mod` above `from`.
pub fn nearest_go_module(root: &PathModel, from: &PathModel, fs: &FileSystemView) -> (res: Option<
    GoModule,
>)
    ensures
        match res {
            Some(m) => nearest_go_module_spec(root@, from@, *fs) == Some((m.dir@, m.path@)),
            None => nearest_go_module_spec(root@, from@, *fs) is None,
        },
{
    let names: [&'static str; 1] = ["go.mod"];
    proof {
        reveal_strlit("go.mod");
        assert(strs_view(names@) =~= go_mod_names()) by {
            assert(names@[0]@ =~= seq!['g', 'o', '.', 'm', 'o', 'd']);
        }
    }
    let go_mod = match nearest_config_file(from, root, &names, fs) {
        Some(p) => p,
        None => return None,
    };
    let dir = match go_mod.parent() {
        Some(d) => d,
        None => return None,
    };
    let source = match read_file(fs, &go_mod) {
        Some(t) => t,
        None => return None,
    };
    let path = match module_path_of(source.as_str()) {
        Some(p) => p,
        None => return None,
    };
    Some(GoModule { dir, path })
}

fn go_exts_exec() -> (res: [&'static str; 1])
    ensures
        strs_view(res@) == go_exts(),
{
    let e: [&'static str; 1] = ["go"];
    proof {
        reveal_strlit("go");
        assert(strs_view(e@) =~= go_exts()) by {
            assert(e@[0]@ =~= seq!['g', 'o']);
        }
    }
    e
}

/// Resolves a Go import: below the directory of the module it belongs to,
/// then as a path from the root, then to the first file whose path names
/// the package.
pub fn resolve(
    root: &PathModel,
    import: &ImportEdge,
    rel_set: &[String],
    fs: &FileSystemView,
) -> (res: Option<String>)
    ensures
        match res {
            Some(r) => resolve_go_spec(root@, *import, rel_set@, *fs) == Some(r@),
            None => resolve_go_spec(root@, *import, rel_set@, *fs) is None,
        },
{
    let from = PathModel::from_str(import.from.as_str());
    let module = nearest_go_module(root, &from, fs);
    let target = to_chars(import.target.as_str());
    let slash = vec!['/'];
    proof {
        assert(slash@ =~= seq!['/']);
    }
    let ghost mspec = nearest_go_module_spec(root@, from@, *fs);
    let suffix: Option<Vec<char>> = match &module {
        None => None,
        Some(m) => {
            let mp = to_chars(m.path.as_str());
            match chars_strip_prefix(&target, &mp) {
                None => None,
                Some(rest) => {
                    let t = crate::text::chars_trim_start_char(&rest, '/');
                    let s = chars_replace(&t, '\\', &slash);
                    if s.len() > 0 {
                        Some(s)
                    } else {
                        None
                    }
                },
            }
        },
    };
    proof {
        assert(suffix.deep_view() == module_suffix(import.target@, mspec)) by {
            match suffix {
                Some(s) => assert(s.deep_view() =~= s@),
                None => {},
            }
        }
    }
    let exts = go_exts_exec();
    match (&module, &suffix) {
        (Some(m), Some(s)) => {
            if let Some(t) = resolve_candidate(root, &m.dir.join_chars(s), rel_set, &exts) {
                return Some(t);
            }
        },
        _ => {},
    }
    let s = match suffix {
        Some(s) => s,
        None => chars_replace(&target, '\\', &slash),
    };
    if let Some(t) = resolve_candidate(root, &PathModel::parse(&s), rel_set, &exts) {
        return Some(t);
    }
    find_go_match(rel_set, &s)
}

} // verus!
