//! TypeScript and JavaScript imports: relative paths, and bare specifiers
//! mapped through `baseUrl` and `paths` of the nearest `tsconfig.json` or
//! `jsconfig.json`.

use vstd::prelude::*;
use crate::model::ImportEdge;
use crate::path::{join, parent, parse_path, render, PathModel, PathView};
use crate::resolver::common::{
    nearest_config_file, nearest_config_file_spec, read_file, read_text, resolve_candidate,
    resolved_candidate, strs_view, FileSystemView,
};
use crate::resolver::rust::{first_resolved, first_resolved_candidate};
use crate::text::{
    chars_has, chars_replace, chars_strip_prefix, chars_strip_suffix, lemma_replace_char_concat,
    replace_char, strip_prefix, strip_suffix, to_chars,
};

verus! {

/// The parts of a TypeScript configuration that resolution reads:
/// `compilerOptions.baseUrl` when it is a string, and the entries of
/// `compilerOptions.paths` when it is an object, each with its replacements
/// when they form an array (an element that is not a string is `None`).
#[derive(Debug, Clone)]
pub struct TsConfig {
    pub base_url: Option<String>,
    pub paths: Option<Vec<(String, Option<Vec<Option<String>>>)>>,
}

/// The mathematical value of a `TsConfig`.
pub struct TsConfigView {
    pub base_url: Option<Seq<char>>,
    pub paths: Option<Seq<(Seq<char>, Option<Seq<Option<Seq<char>>>>)>>,
}

impl View for TsConfig {
    type V = TsConfigView;

    open spec fn view(&self) -> TsConfigView {
        TsConfigView { base_url: self.base_url.deep_view(), paths: self.paths.deep_view() }
    }
}

/// The configuration that `serde_json` reads from a configuration text, if
/// the text is JSON.
pub uninterp spec fn ts_config_of(source: Seq<char>) -> Option<TsConfigView>;

/// Parses a configuration text with `serde_json::from_str` into a
/// `serde_json::Value` and reads `baseUrl` and `paths` from it with
/// `Value::pointer`. The contract only names the result: what JSON parsing
/// accepts is not restated here.
#[verifier::external_body]
fn parse_ts_config(source: &str) -> (res: Option<TsConfig>)
    ensures
        match res {
            Some(c) => ts_config_of(source@) == Some(c@),
            None => ts_config_of(source@) is None,
        },
{
    let value: serde_json::Value = serde_json::from_str(source).ok()?;
    let base_url = value.pointer("/compilerOptions/baseUrl").and_then(|v| v.as_str()).map(String::from);
    let paths = value.pointer("/compilerOptions/paths").and_then(|v| v.as_object()).map(|m| {
        m.iter().map(|(k, v)| {
            (k.clone(), v.as_array().map(|a| a.iter().map(|x| x.as_str().map(String::from)).collect()))
        }).collect()
    });
    Some(TsConfig { base_url, paths })
}

/// `match_path_pattern`: the part of `raw` that the `*` of `pattern`
/// stands for; empty when `pattern` is `raw` itself.
pub open spec fn match_pattern(pattern: Seq<char>, raw: Seq<char>) -> Option<Seq<char>> {
    if pattern == raw {
        Some(Seq::empty())
    } else if !pattern.contains('*') {
        None
    } else {
        let star = first_star(pattern);
        let prefix = pattern.take(star);
        let suffix = pattern.skip(star + 1);
        match strip_prefix(raw, prefix) {
            None => None,
            Some(rest) => strip_suffix(rest, suffix),
        }
    }
}

/// The position of the first `*` of `s`.
pub open spec fn first_star(s: Seq<char>) -> int
    decreases s.len(),
{
    if s.len() == 0 || s[0] == '*' {
        0
    } else {
        1 + first_star(s.drop_first())
    }
}

proof fn lemma_first_star(s: Seq<char>, i: int)
    requires
        0 <= i < s.len(),
        s[i] == '*',
        forall|k: int| 0 <= k < i ==> s[k] != '*',
    ensures
        first_star(s) == i,
    decreases i,
{
    if i > 0 {
        lemma_first_star(s.drop_first(), i - 1);
    }
}

/// `apply_replacement`: every `*` of the replacement becomes the capture.
pub open spec fn apply(replacement: Seq<char>, capture: Seq<char>) -> Seq<char> {
    if replacement.contains('*') {
        replace_char(replacement, '*', capture)
    } else {
        replacement
    }
}

/// The candidates that the `paths` entries give for `target`, in order.
pub open spec fn path_entry_candidates(
    base: PathView,
    entries: Seq<(Seq<char>, Option<Seq<Option<Seq<char>>>>)>,
    target: Seq<char>,
) -> Seq<PathView>
    decreases entries.len(),
{
    if entries.len() == 0 {
        Seq::empty()
    } else {
        let pre = path_entry_candidates(base, entries.drop_last(), target);
        let (pattern, repls) = entries.last();
        match (match_pattern(pattern, target), repls) {
            (Some(capture), Some(rs)) => pre + replacement_candidates(base, rs, capture),
            _ => pre,
        }
    }
}

/// `base` joined with each string replacement, the capture put in.
pub open spec fn replacement_candidates(
    base: PathView,
    rs: Seq<Option<Seq<char>>>,
    capture: Seq<char>,
) -> Seq<PathView>
    decreases rs.len(),
{
    if rs.len() == 0 {
        Seq::empty()
    } else {
        let pre = replacement_candidates(base, rs.drop_last(), capture);
        match rs.last() {
            Some(r) => pre.push(join(base, parse_path(apply(r, capture)))),
            None => pre,
        }
    }
}

/// The candidates a configuration gives: those of its `paths` entries,
/// then the target under the base URL (`.` by default).
pub open spec fn config_candidates(dir: PathView, config: TsConfigView, target: Seq<char>) -> Seq<
    PathView,
> {
    let base_url = match config.base_url {
        Some(b) => b,
        None => seq!['.'],
    };
    let base = join(dir, parse_path(base_url));
    let entries = match config.paths {
        Some(p) => path_entry_candidates(base, p, target),
        None => Seq::empty(),
    };
    entries.push(join(base, parse_path(target)))
}

pub open spec fn config_names() -> Seq<Seq<char>> {
    seq![
        seq!['t', 's', 'c', 'o', 'n', 'f', 'i', 'g', '.', 'j', 's', 'o', 'n'],
        seq!['j', 's', 'c', 'o', 'n', 'f', 'i', 'g', '.', 'j', 's', 'o', 'n'],
    ]
}

/// What `config_path_candidates` returns.
pub open spec fn config_path_candidates_spec(
    root: PathView,
    import: ImportEdge,
    fs: FileSystemView,
) -> Seq<PathView> {
    match nearest_config_file_spec(parse_path(import.from@), root, config_names(), fs) {
        None => Seq::empty(),
        Some(config_path) => match parent(config_path) {
            None => Seq::empty(),
            Some(dir) => match read_text(fs.contents@, render(config_path)) {
                None => Seq::empty(),
                Some(source) => match ts_config_of(source) {
                    None => Seq::empty(),
                    Some(config) => config_candidates(dir, config, import.target@),
                },
            },
        },
    }
}

pub open spec fn ts_exts() -> Seq<Seq<char>> {
    seq![seq!['t', 's'], seq!['t', 's', 'x'], seq!['j', 's'], seq!['j', 's', 'x']]
}

/// What `resolve` returns for a TypeScript or JavaScript import.
pub open spec fn resolve_ts_spec(
    root: PathView,
    import: ImportEdge,
    set: Seq<String>,
    fs: FileSystemView,
) -> Option<Seq<char>> {
    let target = import.target@;
    if target.len() > 0 && target[0] == '.' {
        match parent(parse_path(import.from@)) {
            None => None,
            Some(dir) => resolved_candidate(root, join(dir, parse_path(target)), set, ts_exts()),
        }
    } else {
        first_resolved(root, config_path_candidates_spec(root, import, fs), set, ts_exts())
    }
}

/// The part of `raw` that the `*` of `pattern` matches.
pub fn match_path_pattern(pattern: &[char], raw: &[char]) -> (res: Option<Vec<char>>)
    ensures
        res.deep_view() == match_pattern(pattern@, raw@),
{
    if crate::text::chars_eq(pattern, raw) {
        let e: Vec<char> = Vec::new();
        proof {
            assert(e.deep_view() =~= Seq::<char>::empty());
        }
        return Some(e);
    }
    let mut i: usize = 0;
    while i < pattern.len() && pattern[i] != '*'
        invariant
            i <= pattern@.len(),
            forall|k: int| 0 <= k < i ==> pattern@[k] != '*',
        decreases pattern.len() - i,
    {
        i = i + 1;
    }
    if i == pattern.len() {
        return None;
    }
    proof {
        assert(pattern@.contains('*'));
        lemma_first_star(pattern@, i as int);
    }
    let prefix = crate::text::slice_copy(pattern, 0, i);
    let suffix = crate::text::slice_copy(pattern, i + 1, pattern.len());
    proof {
        assert(prefix@ =~= pattern@.take(i as int));
        assert(suffix@ =~= pattern@.skip(i + 1));
    }
    match chars_strip_prefix(raw, &prefix) {
        None => None,
        Some(rest) => {
            let r = chars_strip_suffix(&rest, &suffix);
            proof {
                match &r {
                    Some(x) => assert(x.deep_view() =~= x@),
                    None => {},
                }
            }
            r
        },
    }
}

proof fn lemma_replace_absent(s: Seq<char>, c: char, r: Seq<char>)
    requires
        !s.contains(c),
    ensures
        replace_char(s, c, r) == s,
    decreases s.len(),
{
    if s.len() > 0 {
        assert(!s.drop_first().contains(c)) by {
            if s.drop_first().contains(c) {
                let k = choose|k: int| 0 <= k < s.drop_first().len() && s.drop_first()[k] == c;
                assert(s[k + 1] == c);
            }
        }
        lemma_replace_absent(s.drop_first(), c, r);
        assert(s[0] != c);
        assert(seq![s[0]] + s.drop_first() =~= s);
    }
}

/// `s` holds exactly one `*`.
pub open spec fn one_star(s: Seq<char>) -> bool {
    exists|i: int|
        0 <= i < s.len() && s[i] == '*' && (forall|k: int|
            0 <= k < s.len() && k != i ==> #[trigger] s[k] != '*')
}

/// Putting back what a one-star pattern captured from a path gives the path:
/// `apply_replacement(pattern, c)` is `raw` when `match_path_pattern(pattern,
/// raw)` is `Some(c)` and `raw` is not the pattern itself.
pub proof fn law_pattern_round_trip(pattern: Seq<char>, raw: Seq<char>, capture: Seq<char>)
    requires
        one_star(pattern),
        raw != pattern,
        match_pattern(pattern, raw) == Some(capture),
    ensures
        apply(pattern, capture) == raw,
{
    let i = choose|i: int|
        0 <= i < pattern.len() && pattern[i] == '*' && (forall|k: int|
            0 <= k < pattern.len() && k != i ==> #[trigger] pattern[k] != '*');
    assert(pattern.contains('*'));
    lemma_first_star(pattern, i);
    let prefix = pattern.take(i);
    let suffix = pattern.skip(i + 1);
    assert(!prefix.contains('*')) by {
        if prefix.contains('*') {
            let k = choose|k: int| 0 <= k < prefix.len() && prefix[k] == '*';
            assert(pattern[k] == '*');
        }
    }
    assert(!suffix.contains('*')) by {
        if suffix.contains('*') {
            let k = choose|k: int| 0 <= k < suffix.len() && suffix[k] == '*';
            assert(pattern[k + i + 1] == '*');
        }
    }
    lemma_replace_absent(prefix, '*', capture);
    lemma_replace_absent(suffix, '*', capture);
    assert(pattern =~= prefix + (seq!['*'] + suffix));
    lemma_replace_char_concat(prefix, seq!['*'] + suffix, '*', capture);
    lemma_replace_char_concat(seq!['*'], suffix, '*', capture);
    assert(seq!['*'].drop_first() =~= Seq::<char>::empty());
    assert(replace_char(Seq::<char>::empty(), '*', capture) =~= Seq::<char>::empty());
    assert(capture + Seq::<char>::empty() =~= capture);
    assert(replace_char(seq!['*'], '*', capture) =~= capture);
    let rest = raw.skip(prefix.len() as int);
    assert(raw =~= prefix + rest);
    assert(rest =~= capture + suffix);
}

/// Puts the capture in place of every `*` of the replacement.
pub fn apply_replacement(replacement: &[char], capture: &[char]) -> (res: Vec<char>)
    ensures
        res@ == apply(replacement@, capture@),
{
    if chars_has(replacement, '*') {
        chars_replace(replacement, '*', capture)
    } else {
        let r = crate::text::slice_copy(replacement, 0, replacement.len());
        proof {
            assert(replacement@.subrange(0, replacement@.len() as int) =~= replacement@);
        }
        r
    }
}

fn push_replacements(
    out: &mut Vec<PathModel>,
    base: &PathModel,
    rs: &Vec<Option<String>>,
    capture: &[char],
)
    ensures
        final(out)@.map_values(|p: PathModel| p@) == old(out)@.map_values(|p: PathModel| p@)
            + replacement_candidates(base@, rs.deep_view(), capture@),
{
    let ghost start = old(out)@.map_values(|p: PathModel| p@);
    let mut k: usize = 0;
    proof {
        assert(rs.deep_view().take(0) =~= Seq::<Option<Seq<char>>>::empty());
    }
    while k < rs.len()
        invariant
            k <= rs@.len(),
            out@.map_values(|p: PathModel| p@) == start + replacement_candidates(
                base@,
                rs.deep_view().take(k as int),
                capture@,
            ),
        decreases rs.len() - k,
    {
        proof {
            let t = rs.deep_view().take(k + 1);
            assert(t.drop_last() =~= rs.deep_view().take(k as int));
            assert(t.last() == rs@[k as int].deep_view());
        }
        match &rs[k] {
            Some(r) => {
                let rc = to_chars(r.as_str());
                let applied = apply_replacement(&rc, capture);
                let cand = base.join_chars(&applied);
                let ghost before = out@.map_values(|p: PathModel| p@);
                out.push(cand);
                proof {
                    assert(out@.map_values(|p: PathModel| p@) =~= before.push(cand@));
                }
            },
            None => {},
        }
        k = k + 1;
    }
    proof {
        assert(rs.deep_view().take(rs@.len() as int) =~= rs.deep_view());
    }
}

/// The candidates that a configuration gives for `target`, read from the
/// directory `dir` of the configuration file.
pub fn candidates_from_config(dir: &PathModel, config: &TsConfig, target: &[char]) -> (res: Vec<
    PathModel,
>)
    ensures
        res@.map_values(|p: PathModel| p@) == config_candidates(dir@, config@, target@),
{
    let base_url: Vec<char> = match &config.base_url {
        Some(b) => to_chars(b.as_str()),
        None => vec!['.'],
    };
    proof {
        match &config.base_url {
            Some(b) => {},
            None => assert(base_url@ =~= seq!['.']),
        }
    }
    let base = dir.join_chars(&base_url);
    let mut out: Vec<PathModel> = Vec::new();
    proof {
        assert(out@.map_values(|p: PathModel| p@) =~= Seq::<PathView>::empty());
    }
    match &config.paths {
        Some(entries) => {
            let mut i: usize = 0;
            proof {
                assert(entries.deep_view().take(0) =~= Seq::<
                    (Seq<char>, Option<Seq<Option<Seq<char>>>>),
                >::empty());
            }
            while i < entries.len()
                invariant
                    i <= entries@.len(),
                    out@.map_values(|p: PathModel| p@) == path_entry_candidates(
                        base@,
                        entries.deep_view().take(i as int),
                        target@,
                    ),
                decreases entries.len() - i,
            {
                proof {
                    let t = entries.deep_view().take(i + 1);
                    assert(t.drop_last() =~= entries.deep_view().take(i as int));
                    assert(t.last() == entries@[i as int].deep_view());
                }
                let pattern = to_chars(entries[i].0.as_str());
                match match_path_pattern(&pattern, target) {
                    Some(capture) => {
                        proof {
                            assert(capture.deep_view() =~= capture@);
                        }
                        match &entries[i].1 {
                            Some(rs) => {
                                push_replacements(&mut out, &base, rs, &capture);
                            },
                            None => {},
                        }
                    },
                    None => {},
                }
                i = i + 1;
            }
            proof {
                assert(entries.deep_view().take(entries@.len() as int) =~= entries.deep_view());
            }
        },
        None => {},
    }
    let last = base.join_chars(target);
    let ghost before = out@.map_values(|p: PathModel| p@);
    out.push(last);
    proof {
        assert(out@.map_values(|p: PathModel| p@) =~= before.push(last@));
    }
    out
}

/// The candidates from the nearest `tsconfig.json` or `jsconfig.json`
/// above the importing file; none when there is none or it is not JSON.
pub fn config_path_candidates(root: &PathModel, import: &ImportEdge, fs: &FileSystemView) -> (res:
    Vec<PathModel>)
    ensures
        res@.map_values(|p: PathModel| p@) == config_path_candidates_spec(root@, *import, *fs),
{
    let names: [&'static str; 2] = ["tsconfig.json", "jsconfig.json"];
    proof {
        reveal_strlit("tsconfig.json");
        reveal_strlit("jsconfig.json");
        assert(strs_view(names@) =~= config_names()) by {
            assert(names@[0]@ =~= config_names()[0]);
            assert(names@[1]@ =~= config_names()[1]);
        }
    }
    let empty: Vec<PathModel> = Vec::new();
    proof {
        assert(empty@.map_values(|p: PathModel| p@) =~= Seq::<PathView>::empty());
    }
    let from = PathModel::from_str(import.from.as_str());
    let config_path = match nearest_config_file(&from, root, &names, fs) {
        Some(p) => p,
        None => return empty,
    };
    let dir = match config_path.parent() {
        Some(d) => d,
        None => return empty,
    };
    let source = match read_file(fs, &config_path) {
        Some(t) => t,
        None => return empty,
    };
    let config = match parse_ts_config(source.as_str()) {
        Some(c) => c,
        None => return empty,
    };
    let target = to_chars(import.target.as_str());
    candidates_from_config(&dir, &config, &target)
}

fn ts_exts_exec() -> (res: [&'static str; 4])
    ensures
        strs_view(res@) == ts_exts(),
{
    let e: [&'static str; 4] = ["ts", "tsx", "js", "jsx"];
    proof {
        reveal_strlit("ts");
        reveal_strlit("tsx");
        reveal_strlit("js");
        reveal_strlit("jsx");
        assert(strs_view(e@) =~= ts_exts()) by {
            assert(e@[0]@ =~= seq!['t', 's']);
            assert(e@[1]@ =~= seq!['t', 's', 'x']);
            assert(e@[2]@ =~= seq!['j', 's']);
            assert(e@[3]@ =~= seq!['j', 's', 'x']);
        }
    }
    e
}

/// Resolves a TypeScript or JavaScript import: a relative specifier next to
/// the importing file, any other through the configuration's candidates.
pub fn resolve(
    root: &PathModel,
    import: &ImportEdge,
    rel_set: &[String],
    fs: &FileSystemView,
) -> (res: Option<String>)
    ensures
        match res {
            Some(r) => resolve_ts_spec(root@, *import, rel_set@, *fs) == Some(r@),
            None => resolve_ts_spec(root@, *import, rel_set@, *fs) is None,
        },
{
    let target = to_chars(import.target.as_str());
    let exts = ts_exts_exec();
    if target.len() > 0 && target[0] == '.' {
        let from = PathModel::from_str(import.from.as_str());
        let dir = match from.parent() {
            Some(d) => d,
            None => return None,
        };
        return resolve_candidate(root, &dir.join_chars(&target), rel_set, &exts);
    }
    let cands = config_path_candidates(root, import, fs);
    first_resolved_candidate(root, &cands, rel_set, &exts)
}

} // verus!
