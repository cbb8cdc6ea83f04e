//! Character-sequence helpers that the rest of the library is stated over.
//!
//! Strings are viewed as `Seq<char>`; the executable helpers work on `&[char]`
//! and return `Vec<char>`, and the two conversion wrappers move between
//! `String` and `Vec<char>`.

use vstd::prelude::*;

verus! {

/// Unicode `White_Space`, the set that `char::is_whitespace` and `str::trim` use.
pub open spec fn is_ws(c: char) -> bool {
    ||| c == ' '
    ||| ('\t' <= c && c <= '\r')
    ||| c == '\u{85}'
    ||| c == '\u{a0}'
    ||| c == '\u{1680}'
    ||| ('\u{2000}' <= c && c <= '\u{200a}')
    ||| c == '\u{2028}'
    ||| c == '\u{2029}'
    ||| c == '\u{202f}'
    ||| c == '\u{205f}'
    ||| c == '\u{3000}'
}

/// `s` without its leading characters that satisfy `c == x`.
pub open spec fn trim_start_char(s: Seq<char>, c: char) -> Seq<char>
    decreases s.len(),
{
    if s.len() > 0 && s[0] == c {
        trim_start_char(s.drop_first(), c)
    } else {
        s
    }
}

/// `s` without its trailing characters equal to `c`.
pub open spec fn trim_end_char(s: Seq<char>, c: char) -> Seq<char>
    decreases s.len(),
{
    if s.len() > 0 && s.last() == c {
        trim_end_char(s.drop_last(), c)
    } else {
        s
    }
}

/// `str::trim_matches` with a single character pattern.
pub open spec fn trim_matches(s: Seq<char>, c: char) -> Seq<char> {
    trim_end_char(trim_start_char(s, c), c)
}

/// The pieces of `s` between occurrences of `sep`, empty pieces included
/// (`str::split`).
pub open spec fn pieces(s: Seq<char>, sep: char) -> Seq<Seq<char>>
    decreases s.len(),
{
    if s.len() == 0 {
        seq![Seq::<char>::empty()]
    } else {
        let prev = pieces(s.drop_last(), sep);
        if s.last() == sep {
            prev.push(Seq::<char>::empty())
        } else {
            prev.update(prev.len() - 1, prev.last().push(s.last()))
        }
    }
}

/// `str::lines` up to a carriage return before each line feed: the pieces
/// between line feeds, without the empty piece after a final line feed.
pub open spec fn lines(s: Seq<char>) -> Seq<Seq<char>> {
    let p = pieces(s, '\n');
    if p.last().len() == 0 {
        p.drop_last()
    } else {
        p
    }
}

pub proof fn lemma_pieces_nonempty(s: Seq<char>, sep: char)
    ensures
        pieces(s, sep).len() >= 1,
        pieces(s, sep).len() <= s.len() + 1,
        pieces(s, sep).len() - 1 + pieces(s, sep).last().len() <= s.len(),
    decreases s.len(),
{
    if s.len() > 0 {
        lemma_pieces_nonempty(s.drop_last(), sep);
    }
}

/// `str::trim_start`.
pub open spec fn trim_start(s: Seq<char>) -> Seq<char>
    decreases s.len(),
{
    if s.len() > 0 && is_ws(s[0]) {
        trim_start(s.drop_first())
    } else {
        s
    }
}

/// `str::trim_end`.
pub open spec fn trim_end(s: Seq<char>) -> Seq<char>
    decreases s.len(),
{
    if s.len() > 0 && is_ws(s.last()) {
        trim_end(s.drop_last())
    } else {
        s
    }
}

/// `str::trim`.
pub open spec fn trim(s: Seq<char>) -> Seq<char> {
    trim_end(trim_start(s))
}

/// `str::starts_with` with a string pattern.
pub open spec fn starts_with(s: Seq<char>, p: Seq<char>) -> bool {
    p.len() <= s.len() && s.subrange(0, p.len() as int) == p
}

/// `str::ends_with` with a string pattern.
pub open spec fn ends_with(s: Seq<char>, p: Seq<char>) -> bool {
    p.len() <= s.len() && s.subrange(s.len() - p.len(), s.len() as int) == p
}

/// `p` occurs in `s` starting at position `i`.
pub open spec fn occurs_at(s: Seq<char>, p: Seq<char>, i: int) -> bool {
    0 <= i && i + p.len() <= s.len() && s.subrange(i, i + p.len()) == p
}

/// `str::contains` with a string pattern.
pub open spec fn contains(s: Seq<char>, p: Seq<char>) -> bool {
    exists|i: int| occurs_at(s, p, i)
}

/// `str::strip_prefix`.
pub open spec fn strip_prefix(s: Seq<char>, p: Seq<char>) -> Option<Seq<char>> {
    if starts_with(s, p) {
        Some(s.skip(p.len() as int))
    } else {
        None
    }
}

/// `str::strip_suffix`.
pub open spec fn strip_suffix(s: Seq<char>, p: Seq<char>) -> Option<Seq<char>> {
    if ends_with(s, p) {
        Some(s.take(s.len() - p.len()))
    } else {
        None
    }
}

/// `str::replace` with a single character pattern: every `c` becomes `r`.
pub open spec fn replace_char(s: Seq<char>, c: char, r: Seq<char>) -> Seq<char>
    decreases s.len(),
{
    if s.len() == 0 {
        s
    } else {
        let head = if s[0] == c { r } else { seq![s[0]] };
        head + replace_char(s.drop_first(), c, r)
    }
}

/// The first position at or after `i` where `p` occurs in `s`.
pub open spec fn find_from(s: Seq<char>, p: Seq<char>, i: int) -> Option<int>
    decreases s.len() + 1 - i,
{
    if i < 0 || i + p.len() > s.len() {
        None
    } else if occurs_at(s, p, i) {
        Some(i)
    } else {
        find_from(s, p, i + 1)
    }
}

pub proof fn lemma_find_from(s: Seq<char>, p: Seq<char>, i: int)
    ensures
        find_from(s, p, i) matches Some(j) ==> i <= j && occurs_at(s, p, j),
    decreases s.len() + 1 - i,
{
    if !(i < 0 || i + p.len() > s.len()) && !occurs_at(s, p, i) {
        lemma_find_from(s, p, i + 1);
    }
}

/// `str::split` with a non-empty string separator: the pieces between the
/// occurrences of `sep` found from left to right.
pub open spec fn split_str(s: Seq<char>, sep: Seq<char>) -> Seq<Seq<char>>
    decreases s.len(),
{
    if sep.len() == 0 {
        seq![s]
    } else {
        match find_from(s, sep, 0) {
            Some(i) => if 0 <= i && i + sep.len() <= s.len() {
                seq![s.take(i)] + split_str(s.skip(i + sep.len()), sep)
            } else {
                seq![s]
            },
            None => seq![s],
        }
    }
}

pub proof fn lemma_split_nonempty(s: Seq<char>, sep: Seq<char>)
    ensures
        split_str(s, sep).len() >= 1,
    decreases s.len(),
{
    if sep.len() > 0 {
        match find_from(s, sep, 0) {
            Some(i) => if 0 <= i && i + sep.len() <= s.len() {
                lemma_split_nonempty(s.skip(i + sep.len()), sep);
            },
            None => {},
        }
    }
}

/// The number of leading characters of `s` equal to `c`.
pub open spec fn leading_count(s: Seq<char>, c: char) -> nat
    decreases s.len(),
{
    if s.len() > 0 && s[0] == c {
        1 + leading_count(s.drop_first(), c)
    } else {
        0
    }
}

pub proof fn lemma_leading_count(s: Seq<char>, c: char, i: int)
    requires
        0 <= i <= s.len(),
        forall|k: int| 0 <= k < i ==> s[k] == c,
        i == s.len() || s[i] != c,
    ensures
        leading_count(s, c) == i,
    decreases i,
{
    if i > 0 {
        lemma_leading_count(s.drop_first(), c, i - 1);
    }
}

/// Copies the characters of a string into a vector.
pub(crate) fn to_chars(s: &str) -> (res: Vec<char>)
    ensures
        res@ == s@,
{
    let mut out: Vec<char> = Vec::new();
    for c in it: s.chars()
        invariant
            it.seq() == s@,
            out@ == s@.take(it.index() as int),
    {
        proof {
            assert(s@.take(it.index() + 1) =~= out@.push(c));
        }
        out.push(c);
    }
    proof {
        assert(s@.take(s@.len() as int) =~= s@);
    }
    out
}

/// Collects characters into a `String` with `String::from_iter`.
#[verifier::external_body]
pub(crate) fn from_chars(v: &[char]) -> (res: String)
    ensures
        res@ == v@,
{
    String::from_iter(v)
}

/// Whitespace test, the executable form of `is_ws`.
pub fn char_is_ws(c: char) -> (res: bool)
    ensures
        res == is_ws(c),
{
    c == ' ' || ('\t' <= c && c <= '\r') || c == '\u{85}' || c == '\u{a0}' || c == '\u{1680}'
        || ('\u{2000}' <= c && c <= '\u{200a}') || c == '\u{2028}' || c == '\u{2029}' || c
        == '\u{202f}' || c == '\u{205f}' || c == '\u{3000}'
}

/// A copy of `s[lo..hi]`.
pub fn slice_copy(s: &[char], lo: usize, hi: usize) -> (res: Vec<char>)
    requires
        lo <= hi <= s@.len(),
    ensures
        res@ == s@.subrange(lo as int, hi as int),
{
    let mut out: Vec<char> = Vec::new();
    let mut i: usize = lo;
    while i < hi
        invariant
            lo <= i <= hi <= s@.len(),
            out@ == s@.subrange(lo as int, i as int),
        decreases hi - i,
    {
        out.push(s[i]);
        i = i + 1;
    }
    out
}

/// Equality of two character sequences.
pub fn chars_eq(a: &[char], b: &[char]) -> (res: bool)
    ensures
        res == (a@ == b@),
{
    if a.len() != b.len() {
        return false;
    }
    let mut i: usize = 0;
    while i < a.len()
        invariant
            a@.len() == b@.len(),
            i <= a@.len(),
            forall|k: int| 0 <= k < i ==> a@[k] == b@[k],
        decreases a.len() - i,
    {
        if a[i] != b[i] {
            return false;
        }
        i = i + 1;
    }
    assert(a@ =~= b@);
    true
}

/// Whether `p` occurs in `s` at position `at`.
pub fn matches_at(s: &[char], p: &[char], at: usize) -> (res: bool)
    ensures
        res == occurs_at(s@, p@, at as int),
{
    if at > s.len() || p.len() > s.len() - at {
        return false;
    }
    let mut i: usize = 0;
    while i < p.len()
        invariant
            at + p@.len() <= s@.len(),
            s@.len() == s.len(),
            i <= p@.len(),
            forall|k: int| 0 <= k < i ==> s@[at + k] == p@[k],
        decreases p.len() - i,
    {
        if s[at + i] != p[i] {
            assert(s@.subrange(at as int, at + p@.len())[i as int] != p@[i as int]);
            return false;
        }
        i = i + 1;
    }
    assert(s@.subrange(at as int, at + p@.len()) =~= p@);
    true
}

/// `str::starts_with`.
pub fn chars_starts_with(s: &[char], p: &[char]) -> (res: bool)
    ensures
        res == starts_with(s@, p@),
{
    matches_at(s, p, 0)
}

/// `str::ends_with`.
pub fn chars_ends_with(s: &[char], p: &[char]) -> (res: bool)
    ensures
        res == ends_with(s@, p@),
{
    if p.len() > s.len() {
        return false;
    }
    matches_at(s, p, s.len() - p.len())
}

/// `str::contains`.
pub fn chars_contains(s: &[char], p: &[char]) -> (res: bool)
    ensures
        res == contains(s@, p@),
{
    if p.len() > s.len() {
        return false;
    }
    let mut i: usize = 0;
    let last: usize = s.len() - p.len();
    loop
        invariant
            p@.len() <= s@.len(),
            last == s@.len() - p@.len(),
            i <= last,
            forall|k: int| 0 <= k < i ==> !occurs_at(s@, p@, k),
        ensures
            forall|k: int| 0 <= k <= last ==> !occurs_at(s@, p@, k),
        decreases last - i,
    {
        if matches_at(s, p, i) {
            return true;
        }
        if i == last {
            break;
        }
        i = i + 1;
    }
    assert forall|k: int| !occurs_at(s@, p@, k) by {
        if 0 <= k && k + p@.len() <= s@.len() {
            assert(k <= last);
        }
    }
    false
}

/// Whether the character `c` occurs in `s`.
pub fn chars_has(s: &[char], c: char) -> (res: bool)
    ensures
        res == s@.contains(c),
{
    let mut i: usize = 0;
    while i < s.len()
        invariant
            i <= s@.len(),
            forall|k: int| 0 <= k < i ==> s@[k] != c,
        decreases s.len() - i,
    {
        if s[i] == c {
            return true;
        }
        i = i + 1;
    }
    false
}

/// `str::strip_prefix`.
pub fn chars_strip_prefix(s: &[char], p: &[char]) -> (res: Option<Vec<char>>)
    ensures
        match res {
            Some(r) => strip_prefix(s@, p@) == Some(r@),
            None => strip_prefix(s@, p@) is None,
        },
{
    if chars_starts_with(s, p) {
        Some(slice_copy(s, p.len(), s.len()))
    } else {
        None
    }
}

/// `str::strip_suffix`.
pub fn chars_strip_suffix(s: &[char], p: &[char]) -> (res: Option<Vec<char>>)
    ensures
        match res {
            Some(r) => strip_suffix(s@, p@) == Some(r@),
            None => strip_suffix(s@, p@) is None,
        },
{
    if chars_ends_with(s, p) {
        Some(slice_copy(s, 0, s.len() - p.len()))
    } else {
        None
    }
}

proof fn lemma_trim_start_char_skip(s: Seq<char>, c: char, i: int)
    requires
        0 <= i <= s.len(),
        forall|k: int| 0 <= k < i ==> s[k] == c,
    ensures
        trim_start_char(s, c) == trim_start_char(s.skip(i), c),
    decreases i,
{
    if i > 0 {
        lemma_trim_start_char_skip(s.drop_first(), c, i - 1);
        assert(s.drop_first().skip(i - 1) =~= s.skip(i));
    } else {
        assert(s.skip(0) =~= s);
    }
}

proof fn lemma_trim_end_char_take(s: Seq<char>, c: char, j: int)
    requires
        0 <= j <= s.len(),
        forall|k: int| j <= k < s.len() ==> s[k] == c,
    ensures
        trim_end_char(s, c) == trim_end_char(s.take(j), c),
    decreases s.len() - j,
{
    if j < s.len() {
        lemma_trim_end_char_take(s.drop_last(), c, j);
        assert(s.drop_last().take(j) =~= s.take(j));
    } else {
        assert(s.take(j) =~= s);
    }
}

/// `str::trim_matches` with a single character.
pub fn chars_trim_matches(s: &[char], c: char) -> (res: Vec<char>)
    ensures
        res@ == trim_matches(s@, c),
{
    let mut i: usize = 0;
    while i < s.len() && s[i] == c
        invariant
            i <= s@.len(),
            forall|k: int| 0 <= k < i ==> s@[k] == c,
        decreases s.len() - i,
    {
        i = i + 1;
    }
    proof {
        lemma_trim_start_char_skip(s@, c, i as int);
    }
    let ghost t = s@.skip(i as int);
    let mut j: usize = s.len();
    while j > i && s[j - 1] == c
        invariant
            i <= j <= s@.len(),
            forall|k: int| j <= k < s@.len() ==> s@[k] == c,
        decreases j,
    {
        j = j - 1;
    }
    proof {
        assert(trim_start_char(t, c) == t);
        lemma_trim_end_char_take(t, c, j - i);
        assert(t.take(j - i) =~= s@.subrange(i as int, j as int));
        let u = s@.subrange(i as int, j as int);
        if u.len() > 0 {
            assert(u.last() == s@[j - 1]);
        }
    }
    slice_copy(s, i, j)
}

proof fn lemma_trim_start_skip(s: Seq<char>, i: int)
    requires
        0 <= i <= s.len(),
        forall|k: int| 0 <= k < i ==> is_ws(s[k]),
    ensures
        trim_start(s) == trim_start(s.skip(i)),
    decreases i,
{
    if i > 0 {
        lemma_trim_start_skip(s.drop_first(), i - 1);
        assert(s.drop_first().skip(i - 1) =~= s.skip(i));
    } else {
        assert(s.skip(0) =~= s);
    }
}

proof fn lemma_trim_end_take(s: Seq<char>, j: int)
    requires
        0 <= j <= s.len(),
        forall|k: int| j <= k < s.len() ==> is_ws(s[k]),
    ensures
        trim_end(s) == trim_end(s.take(j)),
    decreases s.len() - j,
{
    if j < s.len() {
        lemma_trim_end_take(s.drop_last(), j);
        assert(s.drop_last().take(j) =~= s.take(j));
    } else {
        assert(s.take(j) =~= s);
    }
}

/// `str::trim_start`.
pub fn chars_trim_start(s: &[char]) -> (res: Vec<char>)
    ensures
        res@ == trim_start(s@),
{
    let mut i: usize = 0;
    while i < s.len() && char_is_ws(s[i])
        invariant
            i <= s@.len(),
            forall|k: int| 0 <= k < i ==> is_ws(s@[k]),
        decreases s.len() - i,
    {
        i = i + 1;
    }
    proof {
        lemma_trim_start_skip(s@, i as int);
        assert(s@.skip(i as int) =~= s@.subrange(i as int, s@.len() as int));
    }
    slice_copy(s, i, s.len())
}

/// `str::trim`.
pub fn chars_trim(s: &[char]) -> (res: Vec<char>)
    ensures
        res@ == trim(s@),
{
    let mut i: usize = 0;
    while i < s.len() && char_is_ws(s[i])
        invariant
            i <= s@.len(),
            forall|k: int| 0 <= k < i ==> is_ws(s@[k]),
        decreases s.len() - i,
    {
        i = i + 1;
    }
    proof {
        lemma_trim_start_skip(s@, i as int);
    }
    let ghost t = s@.skip(i as int);
    let mut j: usize = s.len();
    while j > i && char_is_ws(s[j - 1])
        invariant
            i <= j <= s@.len(),
            forall|k: int| j <= k < s@.len() ==> is_ws(s@[k]),
        decreases j,
    {
        j = j - 1;
    }
    proof {
        assert(trim_start(t) == t);
        lemma_trim_end_take(t, j - i);
        assert(t.take(j - i) =~= s@.subrange(i as int, j as int));
        let u = s@.subrange(i as int, j as int);
        if u.len() > 0 {
            assert(u.last() == s@[j - 1]);
        }
    }
    slice_copy(s, i, j)
}

proof fn lemma_replace_char_push(s: Seq<char>, x: char, c: char, r: Seq<char>)
    ensures
        replace_char(s.push(x), c, r) == replace_char(s, c, r) + (if x == c {
            r
        } else {
            seq![x]
        }),
    decreases s.len(),
{
    if s.len() == 0 {
        assert(s.push(x).drop_first() =~= s);
        assert(replace_char(s, c, r) =~= Seq::<char>::empty());
        let h = if x == c { r } else { seq![x] };
        assert(replace_char(s.push(x), c, r) =~= h + Seq::<char>::empty());
    } else {
        lemma_replace_char_push(s.drop_first(), x, c, r);
        assert(s.push(x).drop_first() =~= s.drop_first().push(x));
        let h = if s[0] == c { r } else { seq![s[0]] };
        let t = if x == c { r } else { seq![x] };
        assert(h + (replace_char(s.drop_first(), c, r) + t) =~= (h + replace_char(
            s.drop_first(),
            c,
            r,
        )) + t);
    }
}

/// `str::replace` with a single character pattern.
pub fn chars_replace(s: &[char], c: char, r: &[char]) -> (res: Vec<char>)
    ensures
        res@ == replace_char(s@, c, r@),
{
    let mut out: Vec<char> = Vec::new();
    let mut i: usize = 0;
    while i < s.len()
        invariant
            i <= s@.len(),
            out@ == replace_char(s@.take(i as int), c, r@),
        decreases s.len() - i,
    {
        proof {
            lemma_replace_char_push(s@.take(i as int), s@[i as int], c, r@);
            assert(s@.take(i as int).push(s@[i as int]) =~= s@.take(i + 1));
        }
        if s[i] == c {
            let mut k: usize = 0;
            let ghost before = out@;
            while k < r.len()
                invariant
                    k <= r@.len(),
                    out@ == before + r@.take(k as int),
                decreases r.len() - k,
            {
                out.push(r[k]);
                k = k + 1;
                assert(out@ =~= before + r@.take(k as int));
            }
            assert(r@.take(r@.len() as int) =~= r@);
        } else {
            out.push(s[i]);
        }
        i = i + 1;
    }
    assert(s@.take(s@.len() as int) =~= s@);
    out
}

/// `str::find` from position `start`.
pub fn chars_find_from(s: &[char], p: &[char], start: usize) -> (res: Option<usize>)
    ensures
        match res {
            Some(i) => find_from(s@, p@, start as int) == Some(i as int) && start <= i && i
                + p@.len() <= s@.len(),
            None => find_from(s@, p@, start as int) is None,
        },
{
    let mut i: usize = start;
    loop
        invariant
            start <= i,
            find_from(s@, p@, start as int) == find_from(s@, p@, i as int),
        decreases s.len() + 1 - i,
    {
        if i > s.len() || p.len() > s.len() - i {
            return None;
        }
        if matches_at(s, p, i) {
            return Some(i);
        }
        proof {
            if p@.len() == 0 {
                assert(s@.subrange(i as int, i as int) =~= p@);
            }
        }
        i = i + 1;
    }
}

/// `str::split` with a non-empty separator.
pub fn chars_split(s: &[char], sep: &[char]) -> (res: Vec<Vec<char>>)
    requires
        sep@.len() > 0,
    ensures
        res.deep_view() == split_str(s@, sep@),
    decreases s.len(),
{
    match chars_find_from(s, sep, 0) {
        Some(i) => {
            let head = slice_copy(s, 0, i);
            let tail = slice_copy(s, i + sep.len(), s.len());
            let rest = chars_split(&tail, sep);
            let mut out: Vec<Vec<char>> = Vec::new();
            out.push(head);
            let mut k: usize = 0;
            proof {
                assert(s@.take(i as int) =~= s@.subrange(0, i as int));
                assert(s@.skip(i + sep@.len()) =~= tail@);
                assert(out.deep_view() =~= seq![s@.take(i as int)]) by {
                    assert(out@[0].deep_view() =~= out@[0]@);
                }
            }
            while k < rest.len()
                invariant
                    k <= rest@.len(),
                    out.deep_view() == seq![s@.take(i as int)] + rest.deep_view().take(k as int),
                decreases rest.len() - k,
            {
                let c = slice_copy(&rest[k], 0, rest[k].len());
                let ghost before = out@;
                let ghost bdv = out.deep_view();
                out.push(c);
                proof {
                    assert(rest@[k as int]@.subrange(0, rest@[k as int]@.len() as int)
                        =~= rest@[k as int]@);
                    assert(rest.deep_view()[k as int] =~= c@);
                    assert forall|j: int| 0 <= j < out@.len() implies out.deep_view()[j]
                        == bdv.push(c@)[j] by {
                        if j < before.len() {
                            assert(out@[j] == before[j]);
                        } else {
                            assert(out@[j] == c);
                            assert(c.deep_view() =~= c@);
                        }
                    }
                    assert(out.deep_view() =~= bdv.push(c@));
                    assert(rest.deep_view().take(k + 1) =~= rest.deep_view().take(k as int).push(
                        c@,
                    ));
                }
                k = k + 1;
            }
            proof {
                assert(rest.deep_view().take(rest@.len() as int) =~= rest.deep_view());
            }
            out
        },
        None => {
            let whole = slice_copy(s, 0, s.len());
            let mut out: Vec<Vec<char>> = Vec::new();
            out.push(whole);
            proof {
                assert(s@.subrange(0, s@.len() as int) =~= s@);
                assert(out.deep_view() =~= seq![s@]) by {
                    assert(out@[0].deep_view() =~= out@[0]@);
                }
            }
            out
        },
    }
}

proof fn lemma_trim_start_char_skip2(s: Seq<char>, c: char, i: int)
    requires
        0 <= i <= s.len(),
        forall|k: int| 0 <= k < i ==> s[k] == c,
        i == s.len() || s[i] != c,
    ensures
        trim_start_char(s, c) == s.skip(i),
    decreases i,
{
    if i > 0 {
        lemma_trim_start_char_skip2(s.drop_first(), c, i - 1);
        assert(s.drop_first().skip(i - 1) =~= s.skip(i));
    } else {
        assert(s.skip(0) =~= s);
    }
}

/// `str::trim_start_matches` with a single character.
pub fn chars_trim_start_char(s: &[char], c: char) -> (res: Vec<char>)
    ensures
        res@ == trim_start_char(s@, c),
{
    let mut i: usize = 0;
    while i < s.len() && s[i] == c
        invariant
            i <= s@.len(),
            forall|k: int| 0 <= k < i ==> s@[k] == c,
        decreases s.len() - i,
    {
        i = i + 1;
    }
    proof {
        lemma_trim_start_char_skip2(s@, c, i as int);
        assert(s@.skip(i as int) =~= s@.subrange(i as int, s@.len() as int));
    }
    slice_copy(s, i, s.len())
}

/// The lines of `s` (see `lines`).
pub fn chars_lines(s: &[char]) -> (res: Vec<Vec<char>>)
    ensures
        res.deep_view() == lines(s@),
{
    let mut out: Vec<Vec<char>> = Vec::new();
    let mut cur: Vec<char> = Vec::new();
    let mut i: usize = 0;
    proof {
        assert(s@.take(0) =~= Seq::<char>::empty());
    }
    while i < s.len()
        invariant
            i <= s@.len(),
            cur@ == pieces(s@.take(i as int), '\n').last(),
            out.deep_view() == pieces(s@.take(i as int), '\n').drop_last(),
        decreases s.len() - i,
    {
        let ghost pre = s@.take(i as int);
        let ghost ps = pieces(pre, '\n');
        proof {
            lemma_pieces_nonempty(pre, '\n');
            assert(s@.take(i + 1).drop_last() =~= pre);
            assert(s@.take(i + 1).last() == s@[i as int]);
        }
        if s[i] == '\n' {
            let ghost before = out@;
            let ghost bdv = out.deep_view();
            let done = cur;
            out.push(done);
            proof {
                assert forall|j: int| 0 <= j < out@.len() implies out.deep_view()[j] == bdv.push(
                    done@,
                )[j] by {
                    if j < before.len() {
                        assert(out@[j] == before[j]);
                    } else {
                        assert(out@[j] == done);
                        assert(done.deep_view() =~= done@);
                    }
                }
                assert(out.deep_view() =~= bdv.push(done@));
                let nps = ps.push(Seq::<char>::empty());
                assert(nps.drop_last() =~= ps);
                assert(ps.drop_last().push(ps.last()) =~= ps);
            }
            cur = Vec::new();
        } else {
            cur.push(s[i]);
            proof {
                let nps = ps.update(ps.len() - 1, ps.last().push(s@[i as int]));
                assert(nps.drop_last() =~= ps.drop_last());
            }
        }
        i = i + 1;
    }
    proof {
        assert(s@.take(s@.len() as int) =~= s@);
        lemma_pieces_nonempty(s@, '\n');
    }
    let ghost ps = pieces(s@, '\n');
    if cur.len() > 0 {
        let ghost before = out@;
        let ghost bdv = out.deep_view();
        let done = cur;
        out.push(done);
        proof {
            assert forall|j: int| 0 <= j < out@.len() implies out.deep_view()[j] == bdv.push(
                done@,
            )[j] by {
                if j < before.len() {
                    assert(out@[j] == before[j]);
                } else {
                    assert(out@[j] == done);
                    assert(done.deep_view() =~= done@);
                }
            }
            assert(out.deep_view() =~= bdv.push(done@));
            assert(ps.drop_last().push(ps.last()) =~= ps);
        }
    }
    out
}

/// Appends `b` to `a`.
pub fn append_chars(a: &mut Vec<char>, b: &[char])
    ensures
        final(a)@ == old(a)@ + b@,
{
    let mut k: usize = 0;
    let ghost before = a@;
    while k < b.len()
        invariant
            k <= b@.len(),
            a@ == before + b@.take(k as int),
        decreases b.len() - k,
    {
        a.push(b[k]);
        k = k + 1;
        assert(a@ =~= before + b@.take(k as int));
    }
    assert(b@.take(b@.len() as int) =~= b@);
}

/// A character with an ASCII capital letter lowered.
pub open spec fn lower_char(c: char) -> char {
    if 'A' <= c && c <= 'Z' {
        ((c as u32) + 32) as char
    } else {
        c
    }
}

/// A text with its ASCII capital letters lowered.
pub open spec fn ascii_lower(s: Seq<char>) -> Seq<char> {
    s.map_values(|c: char| lower_char(c))
}

/// Lowers the ASCII capital letters of a text.
pub fn chars_ascii_lower(s: &[char]) -> (res: Vec<char>)
    ensures
        res@ == ascii_lower(s@),
{
    let mut out: Vec<char> = Vec::new();
    let mut i: usize = 0;
    while i < s.len()
        invariant
            i <= s@.len(),
            out@ == ascii_lower(s@.take(i as int)),
        decreases s.len() - i,
    {
        let c = s[i];
        let d = if 'A' <= c && c <= 'Z' {
            ((c as u8) + 32) as char
        } else {
            c
        };
        out.push(d);
        proof {
            assert(s@.take(i + 1) =~= s@.take(i as int).push(c));
            assert(ascii_lower(s@.take(i + 1)) =~= ascii_lower(s@.take(i as int)).push(lower_char(c)));
        }
        i = i + 1;
    }
    proof {
        assert(s@.take(s@.len() as int) =~= s@);
    }
    out
}

/// `str::trim_end_matches` with a string pattern: every copy of `p` at the
/// end removed.
pub open spec fn trim_end_str(s: Seq<char>, p: Seq<char>) -> Seq<char>
    decreases s.len(),
{
    if p.len() > 0 && ends_with(s, p) {
        trim_end_str(s.take(s.len() - p.len()), p)
    } else {
        s
    }
}

/// `str::trim_start_matches` with a string pattern: every copy of `p` at
/// the start removed.
pub open spec fn trim_start_str(s: Seq<char>, p: Seq<char>) -> Seq<char>
    decreases s.len(),
{
    if p.len() > 0 && starts_with(s, p) {
        trim_start_str(s.skip(p.len() as int), p)
    } else {
        s
    }
}

/// `str::trim_end_matches` with a string pattern.
pub fn chars_trim_end_str(s: &[char], p: &[char]) -> (res: Vec<char>)
    ensures
        res@ == trim_end_str(s@, p@),
{
    let mut cur = slice_copy(s, 0, s.len());
    proof {
        assert(s@.subrange(0, s@.len() as int) =~= s@);
    }
    if p.len() == 0 {
        return cur;
    }
    while chars_ends_with(&cur, p)
        invariant
            p@.len() > 0,
            trim_end_str(cur@, p@) == trim_end_str(s@, p@),
        decreases cur@.len(),
    {
        let n = cur.len() - p.len();
        cur = slice_copy(&cur, 0, n);
    }
    cur
}

/// `str::trim_start_matches` with a string pattern.
pub fn chars_trim_start_str(s: &[char], p: &[char]) -> (res: Vec<char>)
    ensures
        res@ == trim_start_str(s@, p@),
{
    let mut cur = slice_copy(s, 0, s.len());
    proof {
        assert(s@.subrange(0, s@.len() as int) =~= s@);
    }
    if p.len() == 0 {
        return cur;
    }
    while chars_starts_with(&cur, p)
        invariant
            p@.len() > 0,
            trim_start_str(cur@, p@) == trim_start_str(s@, p@),
        decreases cur@.len(),
    {
        let n = p.len();
        let m = cur.len();
        cur = slice_copy(&cur, n, m);
    }
    cur
}

/// Splitting at `sep` a text that has `sep` between two parts gives the
/// pieces of the first part followed by those of the second.
pub proof fn lemma_pieces_concat(a: Seq<char>, b: Seq<char>, sep: char)
    ensures
        pieces(a + seq![sep] + b, sep) == pieces(a, sep) + pieces(b, sep),
    decreases b.len(),
{
    let s = a + seq![sep] + b;
    if b.len() == 0 {
        assert(s.drop_last() =~= a);
        assert(pieces(a, sep).push(Seq::<char>::empty()) =~= pieces(a, sep) + pieces(b, sep));
    } else {
        let b0 = b.drop_last();
        lemma_pieces_concat(a, b0, sep);
        lemma_pieces_nonempty(b0, sep);
        lemma_pieces_nonempty(a, sep);
        assert(s.drop_last() =~= a + seq![sep] + b0);
        let p = pieces(a, sep);
        let q = pieces(b0, sep);
        if b.last() == sep {
            assert((p + q).push(Seq::<char>::empty()) =~= p + q.push(Seq::<char>::empty()));
        } else {
            assert((p + q).update((p + q).len() - 1, (p + q).last().push(b.last())) =~= p
                + q.update(q.len() - 1, q.last().push(b.last())));
        }
    }
}

/// A text that ends with a line feed has the lines of its first part, then
/// those of its second.
pub proof fn lemma_lines_concat(a: Seq<char>, b: Seq<char>)
    requires
        a.len() == 0 || a.last() == '\n',
    ensures
        lines(a + b) == lines(a) + lines(b),
{
    if a.len() == 0 {
        assert(a + b =~= b);
        assert(lines(a) =~= Seq::<Seq<char>>::empty());
        assert(lines(a) + lines(b) =~= lines(b));
    } else {
        let a0 = a.drop_last();
        assert(a + b =~= a0 + seq!['\n'] + b);
        assert(a =~= a0 + seq!['\n'] + Seq::<char>::empty());
        lemma_pieces_concat(a0, b, '\n');
        lemma_pieces_concat(a0, Seq::<char>::empty(), '\n');
        lemma_pieces_nonempty(b, '\n');
        lemma_pieces_nonempty(a0, '\n');
        let p = pieces(a0, '\n');
        let q = pieces(b, '\n');
        assert(lines(a) =~= p);
        if q.last().len() == 0 {
            assert((p + q).drop_last() =~= p + q.drop_last());
        }
    }
}

/// An occurrence in all but the first character is one in the whole.
pub proof fn lemma_contains_drop_first(s: Seq<char>, p: Seq<char>)
    requires
        s.len() > 0,
        contains(s.drop_first(), p),
    ensures
        contains(s, p),
{
    let i = choose|i: int| occurs_at(s.drop_first(), p, i);
    assert(s.subrange(i + 1, i + 1 + p.len()) =~= s.drop_first().subrange(i, i + p.len()));
    assert(occurs_at(s, p, i + 1));
}

/// An occurrence in all but the last character is one in the whole.
pub proof fn lemma_contains_drop_last(s: Seq<char>, p: Seq<char>)
    requires
        s.len() > 0,
        contains(s.drop_last(), p),
    ensures
        contains(s, p),
{
    let i = choose|i: int| occurs_at(s.drop_last(), p, i);
    assert(s.subrange(i, i + p.len()) =~= s.drop_last().subrange(i, i + p.len()));
    assert(occurs_at(s, p, i));
}

/// What occurs in a trimmed text occurs in the text.
pub proof fn lemma_contains_trim(s: Seq<char>, p: Seq<char>)
    requires
        contains(trim(s), p),
    ensures
        contains(s, p),
{
    lemma_contains_trim_end(trim_start(s), p);
    lemma_contains_trim_start(s, p);
}

proof fn lemma_contains_trim_start(s: Seq<char>, p: Seq<char>)
    requires
        contains(trim_start(s), p),
    ensures
        contains(s, p),
    decreases s.len(),
{
    if s.len() > 0 && is_ws(s[0]) {
        lemma_contains_trim_start(s.drop_first(), p);
        lemma_contains_drop_first(s, p);
    }
}

proof fn lemma_contains_trim_end(s: Seq<char>, p: Seq<char>)
    requires
        contains(trim_end(s), p),
    ensures
        contains(s, p),
    decreases s.len(),
{
    if s.len() > 0 && is_ws(s.last()) {
        lemma_contains_trim_end(s.drop_last(), p);
        lemma_contains_drop_last(s, p);
    }
}

/// The last piece of `s` is a suffix of `s`, and what occurs in any piece
/// occurs in `s`.
pub proof fn lemma_pieces_within(s: Seq<char>, sep: char)
    ensures
        pieces(s, sep).last() == s.skip(s.len() - pieces(s, sep).last().len()),
        forall|k: int, p: Seq<char>|
            0 <= k < pieces(s, sep).len() && #[trigger] contains(pieces(s, sep)[k], p) ==> contains(
                s,
                p,
            ),
    decreases s.len(),
{
    lemma_pieces_nonempty(s, sep);
    if s.len() == 0 {
        assert(s.skip(0) =~= s);
        assert forall|k: int, p: Seq<char>|
            0 <= k < pieces(s, sep).len() && #[trigger] contains(pieces(s, sep)[k], p) implies contains(
            s,
            p,
        ) by {
            assert(pieces(s, sep)[k] =~= s);
        }
    } else {
        let s0 = s.drop_last();
        lemma_pieces_within(s0, sep);
        lemma_pieces_nonempty(s0, sep);
        let prev = pieces(s0, sep);
        if s.last() == sep {
            assert(s.skip(s.len() as int) =~= Seq::<char>::empty());
            assert forall|k: int, p: Seq<char>|
                0 <= k < pieces(s, sep).len() && #[trigger] contains(pieces(s, sep)[k], p) implies contains(s, p) by {
                if k < prev.len() {
                    assert(pieces(s, sep)[k] == prev[k]);
                    lemma_contains_drop_last(s, p);
                } else {
                    let i = choose|i: int| occurs_at(pieces(s, sep)[k], p, i);
                    assert(pieces(s, sep)[k].len() == 0);
                    assert(p.len() == 0);
                    assert(s.subrange(s.len() as int, s.len() as int) =~= p);
                    assert(occurs_at(s, p, s.len() as int));
                }
            }
        } else {
            let last = prev.last().push(s.last());
            assert(last =~= s.skip(s.len() - last.len()));
            assert forall|k: int, p: Seq<char>|
                0 <= k < pieces(s, sep).len() && #[trigger] contains(pieces(s, sep)[k], p) implies contains(s, p) by {
                if k < prev.len() - 1 {
                    assert(pieces(s, sep)[k] == prev[k]);
                    lemma_contains_drop_last(s, p);
                } else {
                    let i = choose|i: int| occurs_at(pieces(s, sep)[k], p, i);
                    let m = s.len() - last.len();
                    assert(s.subrange(m + i, m + i + p.len()) =~= last.subrange(i, i + p.len()));
                    assert(occurs_at(s, p, m + i));
                }
            }
        }
    }
}

/// Replacing in two parts put together replaces in each.
pub proof fn lemma_replace_char_concat(a: Seq<char>, b: Seq<char>, c: char, r: Seq<char>)
    ensures
        replace_char(a + b, c, r) == replace_char(a, c, r) + replace_char(b, c, r),
    decreases a.len(),
{
    if a.len() == 0 {
        assert(a + b =~= b);
        assert(replace_char(a, c, r) + replace_char(b, c, r) =~= replace_char(b, c, r));
    } else {
        lemma_replace_char_concat(a.drop_first(), b, c, r);
        assert((a + b).drop_first() =~= a.drop_first() + b);
        assert((a + b)[0] == a[0]);
        let h = if a[0] == c { r } else { seq![a[0]] };
        assert(h + (replace_char(a.drop_first(), c, r) + replace_char(b, c, r)) =~= (h
            + replace_char(a.drop_first(), c, r)) + replace_char(b, c, r));
    }
}

/// A text without the separator is its only piece.
pub proof fn lemma_pieces_single(s: Seq<char>, sep: char)
    requires
        !s.contains(sep),
    ensures
        pieces(s, sep) == seq![s],
    decreases s.len(),
{
    if s.len() > 0 {
        assert(!s.drop_last().contains(sep)) by {
            if s.drop_last().contains(sep) {
                let k = choose|k: int| 0 <= k < s.drop_last().len() && s.drop_last()[k] == sep;
                assert(s[k] == sep);
            }
        }
        lemma_pieces_single(s.drop_last(), sep);
        assert(s[s.len() - 1] != sep);
        assert(s.drop_last().push(s.last()) =~= s);
        assert(seq![s.drop_last()].update(0, s) =~= seq![s]);
    } else {
        assert(s =~= Seq::<char>::empty());
    }
}

proof fn lemma_trim_start_shape(s: Seq<char>)
    ensures
        trim_start(s).len() == 0 || !is_ws(trim_start(s)[0]),
    decreases s.len(),
{
    if s.len() > 0 && is_ws(s[0]) {
        lemma_trim_start_shape(s.drop_first());
    }
}

proof fn lemma_trim_end_shape(s: Seq<char>)
    ensures
        trim_end(s) == s.take(trim_end(s).len() as int),
        trim_end(s).len() <= s.len(),
        trim_end(s).len() == 0 || !is_ws(trim_end(s).last()),
    decreases s.len(),
{
    if s.len() > 0 && is_ws(s.last()) {
        lemma_trim_end_shape(s.drop_last());
        assert(s.drop_last().take(trim_end(s).len() as int) =~= s.take(trim_end(s).len() as int));
    } else {
        assert(s.take(s.len() as int) =~= s);
    }
}

/// Trimming a trimmed text changes nothing.
pub proof fn lemma_trim_trim(s: Seq<char>)
    ensures
        trim(trim(s)) == trim(s),
{
    let z = trim_start(s);
    let y = trim_end(z);
    lemma_trim_start_shape(s);
    lemma_trim_end_shape(z);
    if y.len() > 0 {
        assert(y[0] == z[0]);
        assert(trim_start(y) == y);
        assert(trim_end(y) == y);
    } else {
        assert(trim_start(y) == y);
        assert(trim_end(y) == y);
    }
}

} // verus!
