//! Lexical paths with `/` separators, modelled on `std::path::Path`.
//!
//! A path is viewed as whether it is absolute plus the sequence of its
//! components after the root, which is what `Path::components` yields:
//! repeated separators and interior `.` components are dropped, a leading `.`
//! of a relative path is kept, and `..` is an ordinary component.

use vstd::prelude::*;
use crate::text::{
    append_chars, chars_eq, from_chars, lemma_pieces_concat, lemma_pieces_single, pieces, slice_copy,
    to_chars,
};

verus! {

/// The mathematical value of a path.
pub struct PathView {
    pub absolute: bool,
    pub parts: Seq<Seq<char>>,
}

/// An executable path: a root flag and its components.
#[derive(Clone, Debug)]
pub struct PathModel {
    pub absolute: bool,
    pub parts: Vec<Vec<char>>,
}

impl View for PathModel {
    type V = PathView;

    open spec fn view(&self) -> PathView {
        PathView { absolute: self.absolute, parts: self.parts.deep_view() }
    }
}

/// The one-character sequence `.`.
pub open spec fn dot() -> Seq<char> {
    seq!['.']
}

/// A component list that `Path::components` can produce.
pub open spec fn wf_parts(absolute: bool, parts: Seq<Seq<char>>) -> bool {
    forall|i: int|
        0 <= i < parts.len() ==> {
            &&& #[trigger] parts[i].len() > 0
            &&& !parts[i].contains('/')
            &&& (parts[i] == dot() ==> i == 0 && !absolute)
        }
}

pub open spec fn wf(p: PathView) -> bool {
    wf_parts(p.absolute, p.parts)
}

/// The pieces of `s` between `/` separators, empty pieces included.
pub open spec fn segments(s: Seq<char>) -> Seq<Seq<char>> {
    pieces(s, '/')
}

/// Whether the `i`-th piece of a path's text is one of its components.
pub open spec fn keep(seg: Seq<char>, i: int, absolute: bool) -> bool {
    seg.len() > 0 && (seg != dot() || (i == 0 && !absolute))
}

/// The kept pieces, in order.
pub open spec fn keep_segments(segs: Seq<Seq<char>>, absolute: bool) -> Seq<Seq<char>>
    decreases segs.len(),
{
    if segs.len() == 0 {
        Seq::empty()
    } else {
        let pre = keep_segments(segs.drop_last(), absolute);
        if keep(segs.last(), segs.len() - 1, absolute) {
            pre.push(segs.last())
        } else {
            pre
        }
    }
}

/// `Path::has_root` for a `/`-separated path.
pub open spec fn is_absolute(s: Seq<char>) -> bool {
    s.len() > 0 && s[0] == '/'
}

/// The path that the text `s` denotes.
pub open spec fn parse_path(s: Seq<char>) -> PathView {
    PathView { absolute: is_absolute(s), parts: keep_segments(segments(s), is_absolute(s)) }
}

/// Components joined by `/`.
pub open spec fn join_slash(parts: Seq<Seq<char>>) -> Seq<char>
    decreases parts.len(),
{
    if parts.len() == 0 {
        Seq::empty()
    } else if parts.len() == 1 {
        parts[0]
    } else {
        join_slash(parts.drop_last()) + seq!['/'] + parts.last()
    }
}

/// The text that the crate writes for a path: every component, the root
/// written as `/`, joined by `/` (`normalize_path`).
pub open spec fn render(p: PathView) -> Seq<char> {
    if p.absolute {
        join_slash(seq![seq!['/']] + p.parts)
    } else {
        join_slash(p.parts)
    }
}

/// How a path is shown: its components joined by `/`, after a `/` when it
/// is absolute.
pub open spec fn display(p: PathView) -> Seq<char> {
    if p.absolute {
        seq!['/'] + join_slash(p.parts)
    } else {
        join_slash(p.parts)
    }
}

/// `Path::parent`.
pub open spec fn parent(p: PathView) -> Option<PathView> {
    if p.parts.len() == 0 {
        None
    } else {
        Some(PathView { absolute: p.absolute, parts: p.parts.drop_last() })
    }
}

/// `Path::join`: an absolute right side replaces the left side; a leading `.`
/// of the right side disappears behind a non-empty left side.
pub open spec fn join(p: PathView, q: PathView) -> PathView {
    if q.absolute {
        q
    } else if (p.absolute || p.parts.len() > 0) && q.parts.len() > 0 && q.parts[0] == dot() {
        PathView { absolute: p.absolute, parts: p.parts + q.parts.drop_first() }
    } else {
        PathView { absolute: p.absolute, parts: p.parts + q.parts }
    }
}

/// `Path::strip_prefix`: the rest of `p` after the components of `base`.
pub open spec fn strip_prefix_path(p: PathView, base: PathView) -> Option<PathView> {
    if p.absolute == base.absolute && base.parts.is_prefix_of(p.parts) {
        Some(PathView { absolute: false, parts: p.parts.skip(base.parts.len() as int) })
    } else {
        None
    }
}

/// `Path::file_name`: the last component unless it is `.` or `..`.
pub open spec fn file_name(p: PathView) -> Option<Seq<char>> {
    if p.parts.len() > 0 && p.parts.last() != dot() && p.parts.last() != seq!['.', '.'] {
        Some(p.parts.last())
    } else {
        None
    }
}

/// Index of the last `.` in `s`, or -1.
pub open spec fn last_dot(s: Seq<char>) -> int
    decreases s.len(),
{
    if s.len() == 0 {
        -1
    } else if s.last() == '.' {
        s.len() - 1
    } else {
        last_dot(s.drop_last())
    }
}

/// `Path::extension`: what follows the last `.` of the file name, unless the
/// name has no `.` or its only `.` is its first character.
pub open spec fn extension(p: PathView) -> Option<Seq<char>> {
    match file_name(p) {
        Some(name) => if last_dot(name) > 0 {
            Some(name.skip(last_dot(name) + 1))
        } else {
            None
        },
        None => None,
    }
}

/// `Path::file_stem`: the file name before its last `.`, or the whole name
/// when it has no `.` after its first character.
pub open spec fn file_stem(p: PathView) -> Option<Seq<char>> {
    match file_name(p) {
        Some(name) => if last_dot(name) > 0 {
            Some(name.take(last_dot(name)))
        } else {
            Some(name)
        },
        None => None,
    }
}

/// The deep view of a character vector is its view.
pub proof fn lemma_chars_deep_view(v: &Vec<char>)
    ensures
        v.deep_view() == v@,
{
    assert(v.deep_view() =~= v@);
}

proof fn lemma_is_dot(s: Seq<char>)
    ensures
        (s == dot()) == (s.len() == 1 && s[0] == '.'),
        (s == seq!['.', '.']) == (s.len() == 2 && s[0] == '.' && s[1] == '.'),
{
    if s.len() == 1 && s[0] == '.' {
        assert(s =~= dot());
    }
    if s.len() == 2 && s[0] == '.' && s[1] == '.' {
        assert(s =~= seq!['.', '.']);
    }
}

/// A copy of `parts[lo..hi]`.
pub fn copy_parts(parts: &Vec<Vec<char>>, lo: usize, hi: usize) -> (res: Vec<Vec<char>>)
    requires
        lo <= hi <= parts@.len(),
    ensures
        res.deep_view() == parts.deep_view().subrange(lo as int, hi as int),
{
    let mut out: Vec<Vec<char>> = Vec::new();
    let mut k: usize = lo;
    while k < hi
        invariant
            lo <= k <= hi <= parts@.len(),
            out.deep_view() == parts.deep_view().subrange(lo as int, k as int),
        decreases hi - k,
    {
        let c = slice_copy(&parts[k], 0, parts[k].len());
        proof {
            assert(parts[k as int]@.subrange(0, parts[k as int]@.len() as int) =~= parts[k as int]@);
            lemma_chars_deep_view(&parts[k as int]);
            lemma_chars_deep_view(&c);
        }
        let ghost old_out = out@;
        let ghost old_dv = out.deep_view();
        out.push(c);
        k = k + 1;
        proof {
            assert forall|i: int| 0 <= i < out@.len() implies out.deep_view()[i] == old_dv.push(
                c@,
            )[i] by {
                if i < old_out.len() {
                    assert(out@[i] == old_out[i]);
                } else {
                    assert(out@[i] == c);
                    assert(out.deep_view()[i] == c.deep_view());
                }
            }
            assert(out.deep_view().len() == old_dv.len() + 1);
            assert(out.deep_view() =~= old_dv.push(c@));
            assert(parts.deep_view()[k - 1] == c@);
            assert(parts.deep_view().subrange(lo as int, k as int) =~= old_dv.push(c@));
        }
    }
    out
}

proof fn lemma_last_dot_bound(s: Seq<char>)
    ensures
        -1 <= last_dot(s) < s.len(),
        last_dot(s) >= 0 ==> s[last_dot(s)] == '.',
    decreases s.len(),
{
    if s.len() > 0 && s.last() != '.' {
        lemma_last_dot_bound(s.drop_last());
    }
}

proof fn lemma_segments_nonempty(s: Seq<char>)
    ensures
        segments(s).len() >= 1,
    decreases s.len(),
{
    if s.len() > 0 {
        lemma_segments_nonempty(s.drop_last());
    }
}

proof fn lemma_keep_segments_wf(segs: Seq<Seq<char>>, absolute: bool)
    requires
        forall|i: int| 0 <= i < segs.len() ==> !(#[trigger] segs[i]).contains('/'),
    ensures
        wf_parts(absolute, keep_segments(segs, absolute)),
        keep_segments(segs, absolute).len() <= segs.len(),
        keep_segments(segs, absolute).len() > 0 && keep_segments(segs, absolute)[0] == dot()
            ==> segs.len() > 0 && segs[0] == dot() && !absolute,
        keep_segments(segs, absolute).len() > 1 ==> forall|i: int|
            1 <= i < keep_segments(segs, absolute).len() ==> keep_segments(segs, absolute)[i]
                != dot(),
    decreases segs.len(),
{
    if segs.len() > 0 {
        lemma_keep_segments_wf(segs.drop_last(), absolute);
        let pre = keep_segments(segs.drop_last(), absolute);
        if keep(segs.last(), segs.len() - 1, absolute) {
            let r = pre.push(segs.last());
            assert forall|i: int| 0 <= i < r.len() implies {
                &&& #[trigger] r[i].len() > 0
                &&& !r[i].contains('/')
                &&& (r[i] == dot() ==> i == 0 && !absolute)
            } by {
                if i < pre.len() {
                    assert(r[i] == pre[i]);
                    if i > 0 {
                        assert(pre[i] != dot());
                    }
                } else {
                    if r[i] == dot() && pre.len() > 0 {
                        assert(segs.len() - 1 == 0);
                    }
                }
            }
        }
    }
}

proof fn lemma_segments_no_slash(s: Seq<char>)
    ensures
        forall|i: int| 0 <= i < segments(s).len() ==> !(#[trigger] segments(s)[i]).contains('/'),
    decreases s.len(),
{
    if s.len() > 0 {
        lemma_segments_no_slash(s.drop_last());
        lemma_segments_nonempty(s.drop_last());
        let prev = segments(s.drop_last());
        if s.last() != '/' {
            let r = prev.update(prev.len() - 1, prev.last().push(s.last()));
            assert forall|i: int| 0 <= i < r.len() implies !(#[trigger] r[i]).contains('/') by {
                if i == prev.len() - 1 {
                    let x = prev.last().push(s.last());
                    if x.contains('/') {
                        let k = choose|k: int| 0 <= k < x.len() && x[k] == '/';
                        if k < prev.last().len() {
                            assert(prev.last()[k] == '/');
                        }
                    }
                }
            }
        } else {
            let r = prev.push(Seq::<char>::empty());
            assert forall|i: int| 0 <= i < r.len() implies !(#[trigger] r[i]).contains('/') by {
                if i < prev.len() {
                    assert(r[i] == prev[i]);
                }
            }
        }
    }
}

/// Every parsed path is well formed.
pub proof fn lemma_parse_wf(s: Seq<char>)
    ensures
        wf(parse_path(s)),
{
    lemma_segments_no_slash(s);
    lemma_keep_segments_wf(segments(s), is_absolute(s));
}

/// The pieces of components joined by `/` are the components.
proof fn lemma_segments_join(parts: Seq<Seq<char>>)
    requires
        parts.len() > 0,
        forall|i: int| 0 <= i < parts.len() ==> !(#[trigger] parts[i]).contains('/'),
    ensures
        segments(join_slash(parts)) == parts,
    decreases parts.len(),
{
    if parts.len() == 1 {
        lemma_pieces_single(parts[0], '/');
        assert(seq![parts[0]] =~= parts);
    } else {
        let front = parts.drop_last();
        lemma_segments_join(front);
        assert(!parts.last().contains('/'));
        lemma_pieces_single(parts.last(), '/');
        lemma_pieces_concat(join_slash(front), parts.last(), '/');
        assert(front + seq![parts.last()] =~= parts);
    }
}

/// Joined components start with the first character of the first one.
proof fn lemma_join_slash_first(parts: Seq<Seq<char>>)
    requires
        parts.len() > 0,
        parts[0].len() > 0,
    ensures
        join_slash(parts).len() > 0,
        join_slash(parts)[0] == parts[0][0],
    decreases parts.len(),
{
    if parts.len() > 1 {
        lemma_join_slash_first(parts.drop_last());
    }
}

/// The pieces kept are those from `lo` on, when exactly those are kept.
proof fn lemma_keep_from(segs: Seq<Seq<char>>, absolute: bool, lo: int)
    requires
        0 <= lo,
        forall|i: int|
            0 <= i < segs.len() ==> (keep(#[trigger] segs[i], i, absolute) <==> lo <= i),
    ensures
        keep_segments(segs, absolute) == (if lo <= segs.len() {
            segs.skip(lo)
        } else {
            Seq::<Seq<char>>::empty()
        }),
    decreases segs.len(),
{
    if segs.len() == 0 {
        if lo == 0 {
            assert(segs.skip(lo) =~= Seq::<Seq<char>>::empty());
        }
    } else {
        let front = segs.drop_last();
        assert forall|i: int| 0 <= i < front.len() implies (keep(#[trigger] front[i], i, absolute)
            <==> lo <= i) by {
            assert(front[i] == segs[i]);
        }
        lemma_keep_from(front, absolute, lo);
        assert(keep(segs[segs.len() - 1], segs.len() - 1, absolute) <==> lo <= segs.len() - 1);
        if lo <= segs.len() - 1 {
            assert(front.skip(lo).push(segs.last()) =~= segs.skip(lo));
        } else if lo == segs.len() {
            assert(segs.skip(lo) =~= Seq::<Seq<char>>::empty());
        }
    }
}

/// Parsing how a well-formed path is shown gives the path back.
pub proof fn lemma_parse_display(p: PathView)
    requires
        wf(p),
    ensures
        parse_path(display(p)) == p,
{
    let js = join_slash(p.parts);
    if p.parts.len() > 0 {
        assert forall|i: int| 0 <= i < p.parts.len() implies !(#[trigger] p.parts[i]).contains('/') by {}
        lemma_segments_join(p.parts);
    }
    if !p.absolute {
        if p.parts.len() == 0 {
            assert(js.len() == 0);
            let segs = segments(js);
            assert(segs =~= seq![Seq::<char>::empty()]);
            lemma_keep_from(segs, false, 1);
            assert(parse_path(display(p)).parts =~= p.parts);
        } else {
            lemma_join_slash_first(p.parts);
            assert(p.parts[0].contains(p.parts[0][0]));
            assert(!is_absolute(js));
            assert forall|i: int| 0 <= i < p.parts.len() implies (keep(
                #[trigger] p.parts[i],
                i,
                false,
            ) <==> 0 <= i) by {}
            lemma_keep_from(p.parts, false, 0);
            assert(p.parts.skip(0) =~= p.parts);
        }
    } else {
        let d = seq!['/'] + js;
        assert(d =~= Seq::<char>::empty() + seq!['/'] + js);
        lemma_pieces_concat(Seq::<char>::empty(), js, '/');
        assert(is_absolute(d));
        if p.parts.len() == 0 {
            let segs = segments(d);
            assert(segs =~= seq![Seq::<char>::empty(), Seq::<char>::empty()]);
            lemma_keep_from(segs, true, 2);
            assert(parse_path(d).parts =~= p.parts);
        } else {
            let segs = segments(d);
            assert(segs =~= seq![Seq::<char>::empty()] + p.parts);
            assert forall|i: int| 0 <= i < segs.len() implies (keep(#[trigger] segs[i], i, true)
                <==> 1 <= i) by {
                if i >= 1 {
                    assert(segs[i] == p.parts[i - 1]);
                }
            }
            lemma_keep_from(segs, true, 1);
            assert(segs.skip(1) =~= p.parts);
        }
    }
}

/// What is left of a well-formed path after a well-formed prefix is well
/// formed, and joining it to the prefix gives the path back.
pub proof fn lemma_strip_join(p: PathView, base: PathView)
    requires
        wf(p),
        wf(base),
        strip_prefix_path(p, base) is Some,
    ensures
        wf(strip_prefix_path(p, base)->0),
        join(base, strip_prefix_path(p, base)->0) == p,
{
    let rel = strip_prefix_path(p, base)->0;
    let n = base.parts.len() as int;
    assert forall|i: int| 0 <= i < rel.parts.len() implies {
        &&& #[trigger] rel.parts[i].len() > 0
        &&& !rel.parts[i].contains('/')
        &&& (rel.parts[i] == dot() ==> i == 0 && !rel.absolute)
    } by {
        assert(rel.parts[i] == p.parts[i + n]);
    }
    if rel.parts.len() > 0 && rel.parts[0] == dot() {
        assert(rel.parts[0] == p.parts[n]);
    }
    assert(base.parts + rel.parts =~= p.parts);
}

impl PathModel {
    /// Parses `/`-separated text into its components.
    pub fn parse(s: &[char]) -> (res: PathModel)
        ensures
            res@ == parse_path(s@),
            wf(res@),
    {
        let absolute = s.len() > 0 && s[0] == '/';
        let mut parts: Vec<Vec<char>> = Vec::new();
        let mut cur: Vec<char> = Vec::new();
        let mut at_first = true;
        let mut i: usize = 0;
        proof {
            assert(s@.take(0) =~= Seq::<char>::empty());
        }
        while i < s.len()
            invariant
                i <= s@.len(),
                absolute == is_absolute(s@),
                at_first == (segments(s@.take(i as int)).len() == 1),
                segments(s@.take(i as int)).len() >= 1,
                cur@ == segments(s@.take(i as int)).last(),
                parts.deep_view() == keep_segments(
                    segments(s@.take(i as int)).drop_last(),
                    absolute,
                ),
            decreases s.len() - i,
        {
            let ghost pre = s@.take(i as int);
            let ghost segs = segments(pre);
            proof {
                lemma_segments_nonempty(pre);
                assert(s@.take(i + 1).drop_last() =~= pre);
                assert(s@.take(i + 1).last() == s@[i as int]);
            }
            if s[i] == '/' {
                let keep_it = cur.len() > 0 && (!(cur.len() == 1 && cur[0] == '.') || (at_first
                    && !absolute));
                proof {
                    lemma_is_dot(cur@);
                    lemma_chars_deep_view(&cur);
                    assert(keep_it == keep(segs.last(), segs.len() - 1, absolute));
                    let nsegs = segs.push(Seq::<char>::empty());
                    assert(nsegs.drop_last() =~= segs);
                    assert(segs =~= segs.drop_last().push(segs.last()));
                }
                if keep_it {
                    parts.push(cur);
                    proof {
                        assert(parts.deep_view() =~= keep_segments(segs.drop_last(), absolute).push(
                            segs.last(),
                        ));
                    }
                }
                cur = Vec::new();
                at_first = false;
            } else {
                cur.push(s[i]);
                proof {
                    let nsegs = segs.update(segs.len() - 1, segs.last().push(s@[i as int]));
                    assert(nsegs.drop_last() =~= segs.drop_last());
                }
            }
            i = i + 1;
        }
        proof {
            assert(s@.take(s@.len() as int) =~= s@);
            lemma_segments_nonempty(s@);
        }
        let ghost segs = segments(s@);
        let keep_it = cur.len() > 0 && (!(cur.len() == 1 && cur[0] == '.') || (at_first
            && !absolute));
        proof {
            lemma_is_dot(cur@);
            lemma_chars_deep_view(&cur);
            assert(keep_it == keep(segs.last(), segs.len() - 1, absolute));
            assert(segs =~= segs.drop_last().push(segs.last()));
        }
        if keep_it {
            parts.push(cur);
            proof {
                assert(parts.deep_view() =~= keep_segments(segs.drop_last(), absolute).push(
                    segs.last(),
                ));
            }
        }
        proof {
            lemma_parse_wf(s@);
        }
        PathModel { absolute, parts }
    }

    /// A copy of the path.
    pub fn copy(&self) -> (res: PathModel)
        ensures
            res@ == self@,
    {
        let parts = copy_parts(&self.parts, 0, self.parts.len());
        proof {
            assert(self.parts.deep_view().subrange(0, self.parts@.len() as int) =~= self.parts.deep_view());
        }
        PathModel { absolute: self.absolute, parts }
    }

    /// Parses a path given as a string.
    pub fn from_str(s: &str) -> (res: PathModel)
        ensures
            res@ == parse_path(s@),
            wf(res@),
    {
        let v = to_chars(s);
        PathModel::parse(&v)
    }

    /// `Path::parent`.
    pub fn parent(&self) -> (res: Option<PathModel>)
        ensures
            match res {
                Some(p) => parent(self@) == Some(p@),
                None => parent(self@) is None,
            },
    {
        if self.parts.len() == 0 {
            None
        } else {
            let parts = copy_parts(&self.parts, 0, self.parts.len() - 1);
            let res = PathModel { absolute: self.absolute, parts };
            proof {
                assert(res@.parts =~= self@.parts.drop_last());
            }
            Some(res)
        }
    }

    /// `Path::join`.
    pub fn join(&self, other: &PathModel) -> (res: PathModel)
        ensures
            res@ == join(self@, other@),
    {
        if other.absolute {
            let parts = copy_parts(&other.parts, 0, other.parts.len());
            proof {
                assert(other.parts.deep_view().subrange(0, other.parts@.len() as int)
                    =~= other.parts.deep_view());
            }
            return PathModel { absolute: true, parts };
        }
        let mut parts = copy_parts(&self.parts, 0, self.parts.len());
        proof {
            assert(self.parts.deep_view().subrange(0, self.parts@.len() as int)
                =~= self.parts.deep_view());
        }
        let skip_dot = (self.absolute || self.parts.len() > 0) && other.parts.len() > 0
            && other.parts[0].len() == 1 && other.parts[0][0] == '.';
        proof {
            if other.parts@.len() > 0 {
                lemma_chars_deep_view(&other.parts@[0]);
                lemma_is_dot(other@.parts[0]);
            }
        }
        let start: usize = if skip_dot {
            1
        } else {
            0
        };
        let mut k: usize = start;
        let ghost base = parts.deep_view();
        while k < other.parts.len()
            invariant
                start <= k <= other.parts@.len(),
                parts.deep_view() == base + other@.parts.subrange(start as int, k as int),
            decreases other.parts.len() - k,
        {
            let c = slice_copy(&other.parts[k], 0, other.parts[k].len());
            proof {
                assert(other.parts[k as int]@.subrange(0, other.parts[k as int]@.len() as int)
                    =~= other.parts[k as int]@);
                lemma_chars_deep_view(&other.parts[k as int]);
                lemma_chars_deep_view(&c);
            }
            let ghost old_p = parts@;
            let ghost old_dv = parts.deep_view();
            parts.push(c);
            k = k + 1;
            proof {
                assert forall|i: int| 0 <= i < parts@.len() implies parts.deep_view()[i]
                    == old_dv.push(c@)[i] by {
                    if i < old_p.len() {
                        assert(parts@[i] == old_p[i]);
                    } else {
                        assert(parts@[i] == c);
                        assert(parts.deep_view()[i] == c.deep_view());
                    }
                }
                assert(parts.deep_view().len() == old_dv.len() + 1);
                assert(parts.deep_view() =~= old_dv.push(c@));
                assert(other@.parts[k - 1] == c@);
                assert(base + other@.parts.subrange(start as int, k as int) =~= (base
                    + other@.parts.subrange(start as int, k - 1)).push(c@));
            }
        }
        proof {
            if skip_dot {
                assert(other@.parts.subrange(1, other@.parts.len() as int)
                    =~= other@.parts.drop_first());
            } else {
                assert(other@.parts.subrange(0, other@.parts.len() as int) =~= other@.parts);
            }
        }
        PathModel { absolute: self.absolute, parts }
    }

    /// Joins a path given as text (`Path::join` with a `&str`).
    pub fn join_chars(&self, other: &[char]) -> (res: PathModel)
        ensures
            res@ == join(self@, parse_path(other@)),
    {
        let o = PathModel::parse(other);
        self.join(&o)
    }

    /// `Path::strip_prefix`.
    pub fn strip_prefix(&self, base: &PathModel) -> (res: Option<PathModel>)
        ensures
            match res {
                Some(p) => strip_prefix_path(self@, base@) == Some(p@),
                None => strip_prefix_path(self@, base@) is None,
            },
    {
        if self.absolute != base.absolute || base.parts.len() > self.parts.len() {
            return None;
        }
        let mut i: usize = 0;
        while i < base.parts.len()
            invariant
                i <= base.parts@.len() <= self.parts@.len(),
                forall|k: int| 0 <= k < i ==> base@.parts[k] == self@.parts[k],
            decreases base.parts.len() - i,
        {
            proof {
                lemma_chars_deep_view(&base.parts@[i as int]);
                lemma_chars_deep_view(&self.parts@[i as int]);
            }
            if !chars_eq(&base.parts[i], &self.parts[i]) {
                proof {
                    if base@.parts.is_prefix_of(self@.parts) {
                        assert(self@.parts.subrange(0, base@.parts.len() as int)[i as int]
                            == self@.parts[i as int]);
                    }
                }
                return None;
            }
            i = i + 1;
        }
        let parts = copy_parts(&self.parts, base.parts.len(), self.parts.len());
        proof {
            assert(base@.parts =~= self@.parts.subrange(0, base@.parts.len() as int));
            assert(self@.parts.subrange(base.parts@.len() as int, self.parts@.len() as int)
                =~= self@.parts.skip(base.parts@.len() as int));
        }
        Some(PathModel { absolute: false, parts })
    }

    /// `Path::file_name`.
    pub fn file_name(&self) -> (res: Option<Vec<char>>)
        ensures
            match res {
                Some(n) => file_name(self@) == Some(n@),
                None => file_name(self@) is None,
            },
    {
        if self.parts.len() == 0 {
            return None;
        }
        let last = &self.parts[self.parts.len() - 1];
        proof {
            lemma_chars_deep_view(last);
            assert(last@ == self@.parts.last());
            lemma_is_dot(last@);
        }
        if (last.len() == 1 && last[0] == '.') || (last.len() == 2 && last[0] == '.' && last[1]
            == '.') {
            None
        } else {
            let c = slice_copy(last, 0, last.len());
            proof {
                assert(last@.subrange(0, last@.len() as int) =~= last@);
            }
            Some(c)
        }
    }

    /// `Path::file_stem`.
    pub fn file_stem(&self) -> (res: Option<Vec<char>>)
        ensures
            match res {
                Some(e) => file_stem(self@) == Some(e@),
                None => file_stem(self@) is None,
            },
    {
        match self.file_name() {
            None => None,
            Some(name) => {
                let d = last_dot_index(&name);
                proof {
                    lemma_last_dot_bound(name@);
                }
                if d.is_some() && d.unwrap() > 0 {
                    let dd = d.unwrap();
                    proof {
                        assert(name@.subrange(0, dd as int) =~= name@.take(dd as int));
                    }
                    Some(slice_copy(&name, 0, dd))
                } else {
                    Some(name)
                }
            },
        }
    }

    /// `Path::extension`.
    pub fn extension(&self) -> (res: Option<Vec<char>>)
        ensures
            match res {
                Some(e) => extension(self@) == Some(e@),
                None => extension(self@) is None,
            },
    {
        match self.file_name() {
            None => None,
            Some(name) => {
                let d = last_dot_index(&name);
                proof {
                    lemma_last_dot_bound(name@);
                }
                if d.is_some() && d.unwrap() > 0 {
                    let dd = d.unwrap();
                    proof {
                        assert(name@.subrange(dd + 1, name@.len() as int) =~= name@.skip(dd + 1));
                    }
                    Some(slice_copy(&name, dd + 1, name.len()))
                } else {
                    None
                }
            }
        }
    }

    /// How the path is shown: its components joined by `/`, after a `/`
    /// when it is absolute.
    pub fn display(&self) -> (res: String)
        ensures
            res@ == display(self@),
    {
        let rel = PathModel { absolute: false, parts: copy_parts(&self.parts, 0, self.parts.len()) };
        proof {
            assert(self.parts.deep_view().subrange(0, self.parts@.len() as int) =~= self.parts.deep_view());
        }
        let body = rel.render();
        if self.absolute {
            let mut out = vec!['/'];
            let mut k: usize = 0;
            while k < body.len()
                invariant
                    k <= body@.len(),
                    out@ == seq!['/'] + body@.take(k as int),
                decreases body.len() - k,
            {
                out.push(body[k]);
                proof {
                    assert(body@.take(k + 1) =~= body@.take(k as int).push(body@[k as int]));
                }
                k = k + 1;
            }
            proof {
                assert(body@.take(body@.len() as int) =~= body@);
            }
            from_chars(&out)
        } else {
            from_chars(&body)
        }
    }

    /// `normalize_path`: the components joined by `/`.
    pub fn render(&self) -> (res: Vec<char>)
        ensures
            res@ == render(self@),
    {
        let mut out: Vec<char> = Vec::new();
        let mut first = true;
        let ghost all = if self.absolute {
            seq![seq!['/']] + self@.parts
        } else {
            self@.parts
        };
        let off: usize = if self.absolute {
            1
        } else {
            0
        };
        if self.absolute {
            out.push('/');
            first = false;
            proof {
                assert(all.take(1) =~= seq![seq!['/']]);
                assert(join_slash(all.take(1)) == all.take(1)[0]);
                assert(out@ =~= seq!['/']);
            }
        } else {
            proof {
                assert(all.take(0) =~= Seq::<Seq<char>>::empty());
            }
        }
        let mut k: usize = 0;
        while k < self.parts.len()
            invariant
                k <= self.parts@.len(),
                all.len() == self.parts@.len() + off,
                off == (if self.absolute { 1int } else { 0 }),
                forall|i: int| 0 <= i < self.parts@.len() ==> all[i + off] == self@.parts[i],
                first == (k + off == 0),
                out@ == join_slash(all.take(k + off)),
            decreases self.parts.len() - k,
        {
            let ghost before = out@;
            if !first {
                out.push('/');
            }
            append_chars(&mut out, &self.parts[k]);
            first = false;
            k = k + 1;
            proof {
                let t = all.take(k + off);
                assert(t.drop_last() =~= all.take(k - 1 + off));
                assert(t.last() == self@.parts[k - 1]);
                if k - 1 + off == 0 {
                    assert(t.len() == 1);
                    assert(out@ =~= t[0]);
                } else {
                    assert(out@ =~= join_slash(t.drop_last()) + seq!['/'] + t.last());
                }
            }
        }
        proof {
            assert(all.take(self.parts@.len() + off) =~= all);
        }
        out
    }

    /// `normalize_path`, as a `String`.
    pub fn to_string_path(&self) -> (res: String)
        ensures
            res@ == render(self@),
    {
        let v = self.render();
        from_chars(&v)
    }
}

/// Index of the last `.` in `s`, or -1.
pub fn last_dot_index(s: &[char]) -> (res: Option<usize>)
    ensures
        match res {
            Some(k) => last_dot(s@) == k,
            None => last_dot(s@) == -1,
        },
{
    let mut j: usize = s.len();
    proof {
        assert(s@.take(s@.len() as int) =~= s@);
    }
    while j > 0
        invariant
            j <= s@.len(),
            last_dot(s@) == last_dot(s@.take(j as int)),
        decreases j,
    {
        proof {
            assert(s@.take(j as int).drop_last() =~= s@.take(j - 1));
        }
        if s[j - 1] == '.' {
            return Some(j - 1);
        }
        j = j - 1;
    }
    None
}

/// The crate's text for a path: `normalize_path` of the text `s`.
pub fn normalize_path(s: &str) -> (res: String)
    ensures
        res@ == render(parse_path(s@)),
{
    PathModel::from_str(s).to_string_path()
}

} // verus!
