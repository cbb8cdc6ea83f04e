//! Lookup of candidate paths among the scanned files, and of configuration
//! files in the directories above a file.

use vstd::prelude::*;
use crate::path::{join, parent, parse_path, render, strip_prefix_path, PathModel, PathView};
use crate::text::{append_chars, from_chars, to_chars};

verus! {

/// What the resolvers may know of the disk: the files that exist and the
/// text of some of them, each path written as
/// `normalize_path` writes it.
#[derive(Debug, Clone)]
pub struct FileSystemView {
    pub files: Vec<String>,
    pub contents: Vec<(String, String)>,
}

/// Whether the text `x` is one of `set`.
pub open spec fn in_set(set: Seq<String>, x: Seq<char>) -> bool {
    exists|i: int| 0 <= i < set.len() && (#[trigger] set[i])@ == x
}

/// Whether the file `p` exists.
pub open spec fn is_file(fs: FileSystemView, p: PathView) -> bool {
    in_set(fs.files@, render(p))
}

/// The text of the file `p`, from the first entry for it.
pub open spec fn read_text(contents: Seq<(String, String)>, key: Seq<char>) -> Option<Seq<char>>
    decreases contents.len(),
{
    if contents.len() == 0 {
        None
    } else if contents[0].0@ == key {
        Some(contents[0].1@)
    } else {
        read_text(contents.drop_first(), key)
    }
}

/// The text of `&str`s.
pub open spec fn strs_view(v: Seq<&str>) -> Seq<Seq<char>> {
    Seq::new(v.len(), |i: int| v[i]@)
}

/// The four file names tried for a module `base` with extension `ext`.
pub open spec fn ext_options(base: Seq<char>, ext: Seq<char>) -> Seq<Seq<char>> {
    seq![
        base + seq!['.'] + ext,
        base + seq!['/', 'm', 'o', 'd', '.'] + ext,
        base + seq!['/', 'i', 'n', 'd', 'e', 'x', '.'] + ext,
        base + seq!['/', '_', '_', 'i', 'n', 'i', 't', '_', '_', '.'] + ext,
    ]
}

/// `base` itself, then the four names of each extension in order.
pub open spec fn candidate_options(base: Seq<char>, exts: Seq<Seq<char>>) -> Seq<Seq<char>>
    decreases exts.len(),
{
    if exts.len() == 0 {
        seq![base]
    } else {
        candidate_options(base, exts.drop_last()) + ext_options(base, exts.last())
    }
}

/// The first of `opts` that is in `set`.
pub open spec fn first_in_set(opts: Seq<Seq<char>>, set: Seq<String>) -> Option<Seq<char>>
    decreases opts.len(),
{
    if opts.len() == 0 {
        None
    } else if in_set(set, opts[0]) {
        Some(opts[0])
    } else {
        first_in_set(opts.drop_first(), set)
    }
}

/// A candidate path as text relative to `root` (or whole when outside it).
pub open spec fn candidate_base(root: PathView, candidate: PathView) -> Seq<char> {
    match strip_prefix_path(candidate, root) {
        Some(rel) => render(rel),
        None => render(candidate),
    }
}

/// What `resolve_candidate` returns.
pub open spec fn resolved_candidate(
    root: PathView,
    candidate: PathView,
    set: Seq<String>,
    exts: Seq<Seq<char>>,
) -> Option<Seq<char>> {
    first_in_set(candidate_options(candidate_base(root, candidate), exts), set)
}

/// Whether the text `x` is one of `set`.
pub fn set_contains(set: &[String], x: &String) -> (res: bool)
    ensures
        res == in_set(set@, x@),
{
    let mut i: usize = 0;
    while i < set.len()
        invariant
            i <= set@.len(),
            forall|k: int| 0 <= k < i ==> set@[k]@ != x@,
        decreases set.len() - i,
    {
        if set[i] == *x {
            return true;
        }
        i = i + 1;
    }
    false
}

fn push_option(opts: &mut Vec<Vec<char>>, base: &Vec<char>, mid: &[char], ext: &[char])
    ensures
        final(opts).deep_view() == old(opts).deep_view().push(base@ + mid@ + ext@),
{
    let mut o: Vec<char> = Vec::new();
    append_chars(&mut o, base);
    append_chars(&mut o, mid);
    append_chars(&mut o, ext);
    let ghost before = opts@;
    let ghost bdv = opts.deep_view();
    opts.push(o);
    proof {
        assert(o@ =~= base@ + mid@ + ext@);
        assert forall|i: int| 0 <= i < opts@.len() implies opts.deep_view()[i] == bdv.push(
            base@ + mid@ + ext@,
        )[i] by {
            if i < before.len() {
                assert(opts@[i] == before[i]);
            } else {
                assert(opts@[i] == o);
                assert(o.deep_view() =~= o@);
            }
        }
        assert(opts.deep_view() =~= bdv.push(base@ + mid@ + ext@));
    }
}

/// The first existing file among `candidate` (relative to `root`) and its
/// variants with each extension: `.ext`, `/mod.ext`, `/index.ext` and
/// `/__init__.ext`.
pub fn resolve_candidate(
    root: &PathModel,
    candidate: &PathModel,
    rel_set: &[String],
    exts: &[&str],
) -> (res: Option<String>)
    ensures
        match res {
            Some(r) => resolved_candidate(root@, candidate@, rel_set@, strs_view(exts@)) == Some(
                r@,
            ),
            None => resolved_candidate(root@, candidate@, rel_set@, strs_view(exts@)) is None,
        },
{
    let base = match candidate.strip_prefix(root) {
        Some(rel) => rel.render(),
        None => candidate.render(),
    };
    let ghost ev = strs_view(exts@);
    let mut opts: Vec<Vec<char>> = Vec::new();
    let b0 = crate::text::slice_copy(&base, 0, base.len());
    opts.push(b0);
    proof {
        assert(base@.subrange(0, base@.len() as int) =~= base@);
        assert(opts.deep_view() =~= candidate_options(base@, ev.take(0))) by {
            assert(ev.take(0).len() == 0);
            assert(opts@[0].deep_view() =~= opts@[0]@);
        }
    }
    let m_dot = vec!['.'];
    let m_mod = vec!['/', 'm', 'o', 'd', '.'];
    let m_index = vec!['/', 'i', 'n', 'd', 'e', 'x', '.'];
    let m_init = vec!['/', '_', '_', 'i', 'n', 'i', 't', '_', '_', '.'];
    proof {
        assert(m_dot@ =~= seq!['.']);
        assert(m_mod@ =~= seq!['/', 'm', 'o', 'd', '.']);
        assert(m_index@ =~= seq!['/', 'i', 'n', 'd', 'e', 'x', '.']);
        assert(m_init@ =~= seq!['/', '_', '_', 'i', 'n', 'i', 't', '_', '_', '.']);
    }
    let mut k: usize = 0;
    while k < exts.len()
        invariant
            k <= exts@.len(),
            ev == strs_view(exts@),
            m_dot@ == seq!['.'],
            m_mod@ == seq!['/', 'm', 'o', 'd', '.'],
            m_index@ == seq!['/', 'i', 'n', 'd', 'e', 'x', '.'],
            m_init@ == seq!['/', '_', '_', 'i', 'n', 'i', 't', '_', '_', '.'],
            opts.deep_view() == candidate_options(base@, ev.take(k as int)),
        decreases exts.len() - k,
    {
        let e = to_chars(exts[k]);
        push_option(&mut opts, &base, &m_dot, &e);
        push_option(&mut opts, &base, &m_mod, &e);
        push_option(&mut opts, &base, &m_index, &e);
        push_option(&mut opts, &base, &m_init, &e);
        proof {
            let t = ev.take(k + 1);
            assert(t.drop_last() =~= ev.take(k as int));
            assert(t.last() == e@);
            assert(opts.deep_view() =~= candidate_options(base@, ev.take(k as int)) + ext_options(
                base@,
                e@,
            ));
        }
        k = k + 1;
    }
    proof {
        assert(ev.take(exts@.len() as int) =~= ev);
    }
    let mut i: usize = 0;
    proof {
        assert(opts.deep_view().skip(0) =~= opts.deep_view());
    }
    while i < opts.len()
        invariant
            i <= opts@.len(),
            ev == strs_view(exts@),
            resolved_candidate(root@, candidate@, rel_set@, ev) == first_in_set(
                opts.deep_view().skip(i as int),
                rel_set@,
            ),
        decreases opts.len() - i,
    {
        let s = from_chars(&opts[i]);
        proof {
            let rest = opts.deep_view().skip(i as int);
            assert(rest[0] == opts@[i as int]@) by {
                assert(opts@[i as int].deep_view() =~= opts@[i as int]@);
            }
            assert(rest.drop_first() =~= opts.deep_view().skip(i + 1));
        }
        if set_contains(rel_set, &s) {
            proof {
                let rest = opts.deep_view().skip(i as int);
                assert(first_in_set(rest, rel_set@) == Some(rest[0]));
            }
            return Some(s);
        }
        i = i + 1;
    }
    None
}

/// Whether one of `names` exists as a file in `dir`.
pub open spec fn any_config(fs: FileSystemView, dir: PathView, names: Seq<Seq<char>>) -> bool {
    exists|i: int| 0 <= i < names.len() && is_file(fs, join(dir, parse_path(#[trigger] names[i])))
}

/// The nearest directory, from `dir` up to `root`, that holds one of `names`.
pub open spec fn config_dir_from(
    dir: PathView,
    root: PathView,
    names: Seq<Seq<char>>,
    fs: FileSystemView,
) -> Option<PathView>
    decreases dir.parts.len(),
{
    if any_config(fs, dir, names) {
        Some(dir)
    } else if dir == root {
        None
    } else {
        match parent(dir) {
            Some(p) => config_dir_from(p, root, names, fs),
            None => None,
        }
    }
}

/// What `nearest_config_dir` returns.
pub open spec fn nearest_config_dir_spec(
    from: PathView,
    root: PathView,
    names: Seq<Seq<char>>,
    fs: FileSystemView,
) -> Option<PathView> {
    match parent(from) {
        Some(dir) => config_dir_from(dir, root, names, fs),
        None => None,
    }
}

/// The first of `names` that exists in `dir`.
pub open spec fn first_config(
    fs: FileSystemView,
    dir: PathView,
    names: Seq<Seq<char>>,
) -> Option<PathView>
    decreases names.len(),
{
    if names.len() == 0 {
        None
    } else if is_file(fs, join(dir, parse_path(names[0]))) {
        Some(join(dir, parse_path(names[0])))
    } else {
        first_config(fs, dir, names.drop_first())
    }
}

/// What `nearest_config_file` returns.
pub open spec fn nearest_config_file_spec(
    from: PathView,
    root: PathView,
    names: Seq<Seq<char>>,
    fs: FileSystemView,
) -> Option<PathView> {
    match nearest_config_dir_spec(from, root, names, fs) {
        Some(dir) => first_config(fs, dir, names),
        None => None,
    }
}

/// Whether the file `p` exists.
pub fn exists_file(fs: &FileSystemView, p: &PathModel) -> (res: bool)
    ensures
        res == is_file(*fs, p@),
{
    let s = p.to_string_path();
    set_contains(&fs.files, &s)
}

/// The text of the file whose path is written `key`, if it is known.
pub fn read_key(fs: &FileSystemView, key: &String) -> (res: Option<String>)
    ensures
        match res {
            Some(t) => read_text(fs.contents@, key@) == Some(t@),
            None => read_text(fs.contents@, key@) is None,
        },
{
    let mut i: usize = 0;
    proof {
        assert(fs.contents@.skip(0) =~= fs.contents@);
    }
    while i < fs.contents.len()
        invariant
            i <= fs.contents@.len(),
            read_text(fs.contents@, key@) == read_text(fs.contents@.skip(i as int), key@),
        decreases fs.contents.len() - i,
    {
        proof {
            assert(fs.contents@.skip(i as int)[0] == fs.contents@[i as int]);
            assert(fs.contents@.skip(i as int).drop_first() =~= fs.contents@.skip(i + 1));
        }
        if fs.contents[i].0 == *key {
            return Some(fs.contents[i].1.clone());
        }
        i = i + 1;
    }
    None
}

/// The text of the file `p`, if it is known.
pub fn read_file(fs: &FileSystemView, p: &PathModel) -> (res: Option<String>)
    ensures
        match res {
            Some(t) => read_text(fs.contents@, render(p@)) == Some(t@),
            None => read_text(fs.contents@, render(p@)) is None,
        },
{
    let key = p.to_string_path();
    read_key(fs, &key)
}

fn has_any_config(fs: &FileSystemView, dir: &PathModel, names: &[&str]) -> (res: bool)
    ensures
        res == any_config(*fs, dir@, strs_view(names@)),
{
    let mut i: usize = 0;
    while i < names.len()
        invariant
            i <= names@.len(),
            forall|k: int|
                0 <= k < i ==> !is_file(*fs, join(dir@, parse_path(strs_view(names@)[k]))),
        decreases names.len() - i,
    {
        let p = PathModel::from_str(names[i]);
        let q = dir.join(&p);
        proof {
            assert(strs_view(names@)[i as int] == names@[i as int]@);
        }
        if exists_file(fs, &q) {
            return true;
        }
        i = i + 1;
    }
    false
}

/// Whether two paths have the same components.
pub fn path_eq(a: &PathModel, b: &PathModel) -> (res: bool)
    ensures
        res == (a@ == b@),
{
    if a.absolute != b.absolute || a.parts.len() != b.parts.len() {
        proof {
            assert(a@.parts.len() == a.parts@.len());
            assert(b@.parts.len() == b.parts@.len());
        }
        return false;
    }
    let mut i: usize = 0;
    while i < a.parts.len()
        invariant
            i <= a.parts@.len() == b.parts@.len(),
            a.absolute == b.absolute,
            forall|k: int| 0 <= k < i ==> a@.parts[k] == b@.parts[k],
        decreases a.parts.len() - i,
    {
        proof {
            crate::path::lemma_chars_deep_view(&a.parts@[i as int]);
            crate::path::lemma_chars_deep_view(&b.parts@[i as int]);
        }
        if !crate::text::chars_eq(&a.parts[i], &b.parts[i]) {
            proof {
                assert(a@.parts[i as int] != b@.parts[i as int]);
            }
            return false;
        }
        i = i + 1;
    }
    proof {
        assert(a@.parts =~= b@.parts);
    }
    true
}

/// The nearest directory above `from`, up to and including `root`, that
/// holds one of the files `names`.
pub fn nearest_config_dir(
    from: &PathModel,
    root: &PathModel,
    names: &[&str],
    fs: &FileSystemView,
) -> (res: Option<PathModel>)
    ensures
        match res {
            Some(d) => nearest_config_dir_spec(from@, root@, strs_view(names@), *fs) == Some(d@),
            None => nearest_config_dir_spec(from@, root@, strs_view(names@), *fs) is None,
        },
{
    let mut dir = match from.parent() {
        Some(d) => d,
        None => return None,
    };
    loop
        invariant
            nearest_config_dir_spec(from@, root@, strs_view(names@), *fs) == config_dir_from(
                dir@,
                root@,
                strs_view(names@),
                *fs,
            ),
        decreases dir@.parts.len(),
    {
        if has_any_config(fs, &dir, names) {
            return Some(dir);
        }
        if path_eq(&dir, root) {
            return None;
        }
        dir = match dir.parent() {
            Some(d) => d,
            None => return None,
        };
    }
}

/// The first of `names` that exists in the nearest directory found by
/// `nearest_config_dir`.
pub fn nearest_config_file(
    from: &PathModel,
    root: &PathModel,
    names: &[&str],
    fs: &FileSystemView,
) -> (res: Option<PathModel>)
    ensures
        match res {
            Some(d) => nearest_config_file_spec(from@, root@, strs_view(names@), *fs) == Some(d@),
            None => nearest_config_file_spec(from@, root@, strs_view(names@), *fs) is None,
        },
{
    let dir = match nearest_config_dir(from, root, names, fs) {
        Some(d) => d,
        None => return None,
    };
    let mut i: usize = 0;
    proof {
        assert(strs_view(names@).skip(0) =~= strs_view(names@));
    }
    while i < names.len()
        invariant
            i <= names@.len(),
            nearest_config_file_spec(from@, root@, strs_view(names@), *fs) == first_config(
                *fs,
                dir@,
                strs_view(names@).skip(i as int),
            ),
        decreases names.len() - i,
    {
        proof {
            assert(strs_view(names@).skip(i as int)[0] == names@[i as int]@);
            assert(strs_view(names@).skip(i as int).drop_first() =~= strs_view(names@).skip(
                i + 1,
            ));
        }
        let p = PathModel::from_str(names[i]);
        let q = dir.join(&p);
        if exists_file(fs, &q) {
            return Some(q);
        }
        i = i + 1;
    }
    None
}

} // verus!
