//! Rust imports: `mod` declarations and `use` paths.

use vstd::prelude::*;
use crate::model::ImportEdge;
use crate::parser::RawImportKind;
use crate::path::{file_name, join, join_slash, parent, parse_path, PathModel, PathView};
use crate::resolver::common::{resolve_candidate, resolved_candidate, strs_view};
use crate::text::{
    append_chars, chars_split, chars_strip_prefix, chars_trim, find_from, occurs_at, split_str,
    starts_with, strip_prefix, to_chars, trim,
};

verus! {

/// The nearest of `p` and its ancestors whose file name is `src`.
pub open spec fn nearest_src(p: PathView) -> Option<PathView>
    decreases p.parts.len(),
{
    if file_name(p) == Some(seq!['s', 'r', 'c']) {
        Some(p)
    } else {
        match parent(p) {
            Some(q) => nearest_src(q),
            None => None,
        }
    }
}

/// The pieces of a `::` path that name modules: not empty and not `*`.
pub open spec fn module_pieces(ps: Seq<Seq<char>>) -> Seq<Seq<char>>
    decreases ps.len(),
{
    if ps.len() == 0 {
        Seq::empty()
    } else {
        let pre = module_pieces(ps.drop_last());
        if ps.last().len() > 0 && ps.last() != seq!['*'] {
            pre.push(ps.last())
        } else {
            pre
        }
    }
}

/// `base` joined with the first `n` pieces, for `n` from all pieces down to one.
pub open spec fn prefix_paths(base: PathView, parts: Seq<Seq<char>>) -> Seq<PathView> {
    Seq::new(
        parts.len(),
        |k: int| join(base, parse_path(join_slash(parts.take(parts.len() - k)))),
    )
}

pub open spec fn sep2() -> Seq<char> {
    seq![':', ':']
}

/// Whether the first `::` piece of `m` is `crate`, `self` or `super`.
pub open spec fn starts_with_keyword(m: Seq<char>) -> bool {
    let first = split_str(m, sep2())[0];
    first == seq!['c', 'r', 'a', 't', 'e'] || first == seq!['s', 'e', 'l', 'f'] || first == seq![
        's',
        'u',
        'p',
        'e',
        'r',
    ]
}

/// The directory a `::` path starts from and the rest of the path.
pub open spec fn path_base(src_root: PathView, dir: PathView, m: Seq<char>) -> (PathView, Seq<char>) {
    match strip_prefix(m, seq!['c', 'r', 'a', 't', 'e', ':', ':']) {
        Some(rest) => (src_root, rest),
        None => match strip_prefix(m, seq!['s', 'e', 'l', 'f', ':', ':']) {
            Some(rest) => (dir, rest),
            None => match strip_prefix(m, seq!['s', 'u', 'p', 'e', 'r', ':', ':']) {
                Some(rest) => (
                    match parent(dir) {
                        Some(p) => p,
                        None => dir,
                    },
                    rest,
                ),
                None => (src_root, m),
            },
        },
    }
}

/// The files a Rust `::` path may name: its prefixes, longest first, under
/// its base directory, then (unless it starts with `crate`, `self` or
/// `super`) under the importing file's directory.
pub open spec fn rust_candidates(src_root: PathView, dir: PathView, module: Seq<char>) -> Seq<
    PathView,
> {
    let m = trim(module);
    let (base, path) = path_base(src_root, dir, m);
    let parts = module_pieces(split_str(path, sep2()));
    if starts_with_keyword(m) {
        prefix_paths(base, parts)
    } else {
        prefix_paths(base, parts) + prefix_paths(dir, parts)
    }
}


proof fn lemma_find_sep(m: Seq<char>, n: int, i: int)
    requires
        0 <= i <= n,
        n + 2 <= m.len(),
        m[n] == ':' && m[n + 1] == ':',
        forall|j: int| i <= j < n ==> #[trigger] m[j] != ':',
    ensures
        find_from(m, sep2(), i) == Some(n),
    decreases n - i,
{
    if i < n {
        if occurs_at(m, sep2(), i) {
            assert(m.subrange(i, i + 2)[0] == m[i]);
        }
        lemma_find_sep(m, n, i + 1);
    } else {
        assert(m.subrange(n, n + 2) =~= sep2());
    }
}

/// The first `::` piece of a path that starts with `word` and `::`, when
/// `word` holds no `:`, is `word`.
proof fn lemma_first_piece(m: Seq<char>, word: Seq<char>)
    requires
        starts_with(m, word + sep2()),
        forall|j: int| 0 <= j < word.len() ==> #[trigger] word[j] != ':',
    ensures
        split_str(m, sep2())[0] == word,
        strip_prefix(m, word + sep2()) == Some(m.skip(word.len() as int + 2)),
{
    let n = word.len() as int;
    let w = word + sep2();
    assert(m.subrange(0, n + 2) == w);
    assert forall|j: int| 0 <= j < n implies #[trigger] m[j] != ':' by {
        assert(m[j] == m.subrange(0, n + 2)[j]);
        assert(w[j] == word[j]);
    }
    assert(m[n] == w[n] && m[n + 1] == w[n + 1]) by {
        assert(m[n] == m.subrange(0, n + 2)[n]);
        assert(m[n + 1] == m.subrange(0, n + 2)[n + 1]);
    }
    lemma_find_sep(m, n, 0);
    assert(m.take(n) =~= word) by {
        assert forall|j: int| 0 <= j < n implies m.take(n)[j] == word[j] by {
            assert(m[j] == m.subrange(0, n + 2)[j]);
            assert(w[j] == word[j]);
        }
    }
}

/// The candidates of a `::` path whose base directory is `base`: `base`
/// joined with the module pieces of `rest`, longest first.
pub open spec fn from_base(base: PathView, rest: Seq<char>) -> Seq<PathView> {
    let parts = module_pieces(split_str(rest, sep2()));
    Seq::new(
        parts.len(),
        |k: int| join(base, parse_path(join_slash(parts.take(parts.len() - k)))),
    )
}

/// A `crate::` path is looked up from the crate's source root, wherever
/// the importing file is: its candidates do not depend on the file's
/// directory, and they are the source root joined with the module pieces
/// of the rest of the path, longest first.
pub proof fn law_crate_paths_from_src_root(src_root: PathView, d1: PathView, d2: PathView, module: Seq<char>)
    requires
        starts_with(trim(module), seq!['c', 'r', 'a', 't', 'e', ':', ':']),
    ensures
        rust_candidates(src_root, d1, module) == rust_candidates(src_root, d2, module),
        rust_candidates(src_root, d1, module) == from_base(src_root, trim(module).skip(7)),
{
    let m = trim(module);
    let word = seq!['c', 'r', 'a', 't', 'e'];
    assert(word + sep2() =~= seq!['c', 'r', 'a', 't', 'e', ':', ':']);
    lemma_first_piece(m, word);
    assert(starts_with_keyword(m));
    assert(rust_candidates(src_root, d1, module) =~= from_base(src_root, m.skip(7)));
    assert(rust_candidates(src_root, d2, module) =~= from_base(src_root, m.skip(7)));
}

/// A `self::` path is looked up from the importing file's directory, and
/// never from the source root.
pub proof fn law_self_paths_from_dir(s1: PathView, s2: PathView, dir: PathView, module: Seq<char>)
    requires
        starts_with(trim(module), seq!['s', 'e', 'l', 'f', ':', ':']),
    ensures
        rust_candidates(s1, dir, module) == rust_candidates(s2, dir, module),
        rust_candidates(s1, dir, module) == from_base(dir, trim(module).skip(6)),
{
    let m = trim(module);
    let word = seq!['s', 'e', 'l', 'f'];
    assert(word + sep2() =~= seq!['s', 'e', 'l', 'f', ':', ':']);
    lemma_first_piece(m, word);
    assert(!starts_with(m, seq!['c', 'r', 'a', 't', 'e', ':', ':'])) by {
        assert(m.subrange(0, 6)[0] == m[0]);
        assert(m.subrange(0, 6)[0] == 's');
        if starts_with(m, seq!['c', 'r', 'a', 't', 'e', ':', ':']) {
            assert(m.subrange(0, 7)[0] == m[0]);
        }
    }
    assert(starts_with_keyword(m));
    assert(rust_candidates(s1, dir, module) =~= from_base(dir, m.skip(6)));
    assert(rust_candidates(s2, dir, module) =~= from_base(dir, m.skip(6)));
}

/// A `super::` path is looked up from the parent of the importing file's
/// directory (the directory itself when it has none), never from the
/// source root.
pub proof fn law_super_paths_from_parent(s1: PathView, s2: PathView, dir: PathView, module: Seq<char>)
    requires
        starts_with(trim(module), seq!['s', 'u', 'p', 'e', 'r', ':', ':']),
    ensures
        rust_candidates(s1, dir, module) == rust_candidates(s2, dir, module),
        rust_candidates(s1, dir, module) == from_base(
            match parent(dir) {
                Some(p) => p,
                None => dir,
            },
            trim(module).skip(7),
        ),
{
    let m = trim(module);
    let word = seq!['s', 'u', 'p', 'e', 'r'];
    assert(word + sep2() =~= seq!['s', 'u', 'p', 'e', 'r', ':', ':']);
    lemma_first_piece(m, word);
    assert(m.subrange(0, 7)[0] == m[0]);
    assert(m.subrange(0, 7)[1] == m[1]);
    assert(!starts_with(m, seq!['c', 'r', 'a', 't', 'e', ':', ':'])) by {
        if starts_with(m, seq!['c', 'r', 'a', 't', 'e', ':', ':']) {
            assert(m.subrange(0, 7)[0] == 'c');
        }
    }
    assert(!starts_with(m, seq!['s', 'e', 'l', 'f', ':', ':'])) by {
        if starts_with(m, seq!['s', 'e', 'l', 'f', ':', ':']) {
            assert(m.subrange(0, 6)[1] == m[1]);
            assert(m.subrange(0, 6)[1] == 'e');
        }
    }
    assert(starts_with_keyword(m));
    let base = match parent(dir) {
        Some(p) => p,
        None => dir,
    };
    assert(rust_candidates(s1, dir, module) =~= from_base(base, m.skip(7)));
    assert(rust_candidates(s2, dir, module) =~= from_base(base, m.skip(7)));
}

/// The first candidate that `resolve_candidate` finds.
pub open spec fn first_resolved(
    root: PathView,
    cands: Seq<PathView>,
    set: Seq<String>,
    exts: Seq<Seq<char>>,
) -> Option<Seq<char>>
    decreases cands.len(),
{
    if cands.len() == 0 {
        None
    } else {
        match resolved_candidate(root, cands[0], set, exts) {
            Some(r) => Some(r),
            None => first_resolved(root, cands.drop_first(), set, exts),
        }
    }
}

pub open spec fn rs_exts() -> Seq<Seq<char>> {
    seq![seq!['r', 's']]
}

/// What `resolve` returns for a Rust import.
pub open spec fn resolve_rust(root: PathView, import: ImportEdge, set: Seq<String>) -> Option<
    Seq<char>,
> {
    let from = parse_path(import.from@);
    match parent(from) {
        None => None,
        Some(dir) => if import.kind == RawImportKind::Module {
            resolved_candidate(root, join(dir, parse_path(trim(import.target@))), set, rs_exts())
        } else if import.kind != RawImportKind::Symbol {
            None
        } else {
            let src_root = match nearest_src(from) {
                Some(s) => s,
                None => root,
            };
            first_resolved(root, rust_candidates(src_root, dir, import.target@), set, rs_exts())
        },
    }
}

/// The nearest of `p` and its ancestors named `src`.
pub fn nearest_src_dir(p: &PathModel) -> (res: Option<PathModel>)
    ensures
        match res {
            Some(s) => nearest_src(p@) == Some(s@),
            None => nearest_src(p@) is None,
        },
{
    let mut cur = PathModel { absolute: p.absolute, parts: crate::path::copy_parts(&p.parts, 0, p.parts.len()) };
    proof {
        assert(p.parts.deep_view().subrange(0, p.parts@.len() as int) =~= p.parts.deep_view());
    }
    loop
        invariant
            nearest_src(p@) == nearest_src(cur@),
        decreases cur@.parts.len(),
    {
        match cur.file_name() {
            Some(n) => {
                proof {
                    if n@ == seq!['s', 'r', 'c'] {
                        assert(n@.len() == 3);
                    }
                    if n@.len() == 3 && n@[0] == 's' && n@[1] == 'r' && n@[2] == 'c' {
                        assert(n@ =~= seq!['s', 'r', 'c']);
                    }
                }
                if n.len() == 3 && n[0] == 's' && n[1] == 'r' && n[2] == 'c' {
                    return Some(cur);
                }
            },
            None => {},
        }
        cur = match cur.parent() {
            Some(q) => q,
            None => return None,
        };
    }
}

fn keyword_lits() -> (res: (Vec<char>, Vec<char>, Vec<char>))
    ensures
        res.0@ == seq!['c', 'r', 'a', 't', 'e'],
        res.1@ == seq!['s', 'e', 'l', 'f'],
        res.2@ == seq!['s', 'u', 'p', 'e', 'r'],
{
    let a = vec!['c', 'r', 'a', 't', 'e'];
    let b = vec!['s', 'e', 'l', 'f'];
    let c = vec!['s', 'u', 'p', 'e', 'r'];
    proof {
        assert(a@ =~= seq!['c', 'r', 'a', 't', 'e']);
        assert(b@ =~= seq!['s', 'e', 'l', 'f']);
        assert(c@ =~= seq!['s', 'u', 'p', 'e', 'r']);
    }
    (a, b, c)
}

fn module_pieces_exec(ps: &Vec<Vec<char>>) -> (res: Vec<Vec<char>>)
    ensures
        res.deep_view() == module_pieces(ps.deep_view()),
{
    let mut out: Vec<Vec<char>> = Vec::new();
    let mut i: usize = 0;
    proof {
        assert(ps.deep_view().take(0) =~= Seq::<Seq<char>>::empty());
    }
    while i < ps.len()
        invariant
            i <= ps@.len(),
            out.deep_view() == module_pieces(ps.deep_view().take(i as int)),
        decreases ps.len() - i,
    {
        let p = &ps[i];
        proof {
            let t = ps.deep_view().take(i + 1);
            assert(t.drop_last() =~= ps.deep_view().take(i as int));
            assert(t.last() =~= p@);
            if p@ == seq!['*'] {
                assert(p@.len() == 1);
            }
            if p@.len() == 1 && p@[0] == '*' {
                assert(p@ =~= seq!['*']);
            }
        }
        if p.len() > 0 && !(p.len() == 1 && p[0] == '*') {
            let c = crate::text::slice_copy(p, 0, p.len());
            let ghost before = out@;
            let ghost bdv = out.deep_view();
            out.push(c);
            proof {
                assert(p@.subrange(0, p@.len() as int) =~= p@);
                assert forall|j: int| 0 <= j < out@.len() implies out.deep_view()[j] == bdv.push(
                    c@,
                )[j] by {
                    if j < before.len() {
                        assert(out@[j] == before[j]);
                    } else {
                        assert(out@[j] == c);
                        assert(c.deep_view() =~= c@);
                    }
                }
                assert(out.deep_view() =~= bdv.push(c@));
            }
        }
        i = i + 1;
    }
    proof {
        assert(ps.deep_view().take(ps@.len() as int) =~= ps.deep_view());
    }
    out
}

fn join_first(parts: &Vec<Vec<char>>, n: usize) -> (res: Vec<char>)
    requires
        n <= parts@.len(),
    ensures
        res@ == join_slash(parts.deep_view().take(n as int)),
{
    let mut out: Vec<char> = Vec::new();
    let mut k: usize = 0;
    proof {
        assert(parts.deep_view().take(0) =~= Seq::<Seq<char>>::empty());
    }
    while k < n
        invariant
            k <= n <= parts@.len(),
            out@ == join_slash(parts.deep_view().take(k as int)),
        decreases n - k,
    {
        if k > 0 {
            out.push('/');
        }
        append_chars(&mut out, &parts[k]);
        proof {
            let t = parts.deep_view().take(k + 1);
            assert(t.drop_last() =~= parts.deep_view().take(k as int));
            assert(t.last() == parts@[k as int]@) by {
                assert(parts@[k as int].deep_view() =~= parts@[k as int]@);
            }
            if k == 0 {
                assert(out@ =~= t[0]);
            } else {
                assert(out@ =~= join_slash(t.drop_last()) + seq!['/'] + t.last());
            }
        }
        k = k + 1;
    }
    out
}

fn push_prefix_paths(out: &mut Vec<PathModel>, base: &PathModel, parts: &Vec<Vec<char>>)
    ensures
        final(out)@.map_values(|p: PathModel| p@) == old(out)@.map_values(|p: PathModel| p@)
            + prefix_paths(base@, parts.deep_view()),
{
    let ghost start = old(out)@.map_values(|p: PathModel| p@);
    let mut k: usize = 0;
    while k < parts.len()
        invariant
            k <= parts@.len(),
            out@.map_values(|p: PathModel| p@) == start + prefix_paths(
                base@,
                parts.deep_view(),
            ).take(k as int),
        decreases parts.len() - k,
    {
        let text = join_first(parts, parts.len() - k);
        let cand = base.join_chars(&text);
        let ghost before = out@.map_values(|p: PathModel| p@);
        out.push(cand);
        proof {
            assert(out@.map_values(|p: PathModel| p@) =~= before.push(cand@));
            assert(prefix_paths(base@, parts.deep_view()).take(k + 1) =~= prefix_paths(
                base@,
                parts.deep_view(),
            ).take(k as int).push(cand@));
        }
        k = k + 1;
    }
    proof {
        assert(prefix_paths(base@, parts.deep_view()).take(parts@.len() as int) =~= prefix_paths(
            base@,
            parts.deep_view(),
        ));
    }
}

/// The files a Rust `::` path may name (see `rust_candidates`).
pub fn rust_path_candidates(src_root: &PathModel, dir: &PathModel, module: &[char]) -> (res: Vec<
    PathModel,
>)
    ensures
        res@.map_values(|p: PathModel| p@) == rust_candidates(src_root@, dir@, module@),
{
    let m = chars_trim(module);
    let crate_sep = vec!['c', 'r', 'a', 't', 'e', ':', ':'];
    let self_sep = vec!['s', 'e', 'l', 'f', ':', ':'];
    let super_sep = vec!['s', 'u', 'p', 'e', 'r', ':', ':'];
    let sep = vec![':', ':'];
    proof {
        assert(crate_sep@ =~= seq!['c', 'r', 'a', 't', 'e', ':', ':']);
        assert(self_sep@ =~= seq!['s', 'e', 'l', 'f', ':', ':']);
        assert(super_sep@ =~= seq!['s', 'u', 'p', 'e', 'r', ':', ':']);
        assert(sep@ =~= sep2());
    }
    let (base, path) = match chars_strip_prefix(&m, &crate_sep) {
        Some(rest) => (PathModel::copy(src_root), rest),
        None => match chars_strip_prefix(&m, &self_sep) {
            Some(rest) => (PathModel::copy(dir), rest),
            None => match chars_strip_prefix(&m, &super_sep) {
                Some(rest) => {
                    let b = match dir.parent() {
                        Some(p) => p,
                        None => PathModel::copy(dir),
                    };
                    (b, rest)
                },
                None => {
                    let whole = crate::text::slice_copy(&m, 0, m.len());
                    proof {
                        assert(m@.subrange(0, m@.len() as int) =~= m@);
                    }
                    (PathModel::copy(src_root), whole)
                },
            },
        },
    };
    proof {
        assert((base@, path@) == path_base(src_root@, dir@, m@));
    }
    let pieces = chars_split(&path, &sep);
    let parts = module_pieces_exec(&pieces);
    let mut out: Vec<PathModel> = Vec::new();
    proof {
        assert(out@.map_values(|p: PathModel| p@) =~= Seq::<PathView>::empty());
    }
    push_prefix_paths(&mut out, &base, &parts);
    let firsts = chars_split(&m, &sep);
    proof {
        crate::text::lemma_split_nonempty(m@, sep2());
        crate::path::lemma_chars_deep_view(&firsts@[0]);
    }
    let first = &firsts[0];
    let (kc, ks, ku) = keyword_lits();
    let is_kw = crate::text::chars_eq(first, &kc) || crate::text::chars_eq(first, &ks)
        || crate::text::chars_eq(first, &ku);
    if !is_kw {
        push_prefix_paths(&mut out, dir, &parts);
    }
    proof {
        assert(out@.map_values(|p: PathModel| p@) =~= rust_candidates(src_root@, dir@, module@));
    }
    out
}

fn rs_exts_exec() -> (res: [&'static str; 1])
    ensures
        strs_view(res@) == rs_exts(),
{
    let e: [&'static str; 1] = ["rs"];
    proof {
        reveal_strlit("rs");
        assert(strs_view(e@) =~= rs_exts()) by {
            assert(e@[0]@ =~= seq!['r', 's']);
        }
    }
    e
}

/// The first of `cands` that `resolve_candidate` finds.
pub fn first_resolved_candidate(
    root: &PathModel,
    cands: &Vec<PathModel>,
    rel_set: &[String],
    exts: &[&str],
) -> (res: Option<String>)
    ensures
        match res {
            Some(r) => first_resolved(
                root@,
                cands@.map_values(|p: PathModel| p@),
                rel_set@,
                strs_view(exts@),
            ) == Some(r@),
            None => first_resolved(
                root@,
                cands@.map_values(|p: PathModel| p@),
                rel_set@,
                strs_view(exts@),
            ) is None,
        },
{
    let ghost cv = cands@.map_values(|p: PathModel| p@);
    let mut i: usize = 0;
    proof {
        assert(cv.skip(0) =~= cv);
    }
    while i < cands.len()
        invariant
            i <= cands@.len(),
            cv == cands@.map_values(|p: PathModel| p@),
            first_resolved(root@, cv, rel_set@, strs_view(exts@)) == first_resolved(
                root@,
                cv.skip(i as int),
                rel_set@,
                strs_view(exts@),
            ),
        decreases cands.len() - i,
    {
        proof {
            assert(cv.skip(i as int)[0] == cands@[i as int]@);
            assert(cv.skip(i as int).drop_first() =~= cv.skip(i + 1));
        }
        match resolve_candidate(root, &cands[i], rel_set, exts) {
            Some(r) => {
                return Some(r);
            },
            None => {},
        }
        i = i + 1;
    }
    None
}

/// Resolves a Rust import: a `mod` declaration to the module file next to
/// the importing file, a `use` path to the first file its prefixes name.
pub fn resolve(root: &PathModel, import: &ImportEdge, rel_set: &[String]) -> (res: Option<String>)
    ensures
        match res {
            Some(r) => resolve_rust(root@, *import, rel_set@) == Some(r@),
            None => resolve_rust(root@, *import, rel_set@) is None,
        },
{
    let from = PathModel::from_str(import.from.as_str());
    let dir = match from.parent() {
        Some(d) => d,
        None => return None,
    };
    let exts = rs_exts_exec();
    let target = to_chars(import.target.as_str());
    if import.kind == RawImportKind::Module {
        let t = chars_trim(&target);
        let cand = dir.join_chars(&t);
        return resolve_candidate(root, &cand, rel_set, &exts);
    }
    if import.kind != RawImportKind::Symbol {
        return None;
    }
    let src_root = match nearest_src_dir(&from) {
        Some(s) => s,
        None => PathModel::copy(root),
    };
    let cands = rust_path_candidates(&src_root, &dir, &target);
    first_resolved_candidate(root, &cands, rel_set, &exts)
}

} // verus!
