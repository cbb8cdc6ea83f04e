//! The order in which extracted imports are reported: empty targets
//! dropped, a stable sort by target, then start and end of the node, and
//! repeated entries next to each other dropped.

use vstd::prelude::*;
use crate::parser::{imports_view, RawImport, RawImportView};
use crate::text::{chars_eq, to_chars};

verus! {

/// Whether text `a` comes before text `b`, comparing characters by their
/// code points and a prefix before the longer text.
pub open spec fn text_lt(a: Seq<char>, b: Seq<char>) -> bool
    decreases a.len(),
{
    if a.len() == 0 {
        b.len() > 0
    } else if b.len() == 0 {
        false
    } else if a[0] != b[0] {
        (a[0] as int) < (b[0] as int)
    } else {
        text_lt(a.drop_first(), b.drop_first())
    }
}

/// Whether import `a` sorts strictly before import `b`: by target, then
/// start, then end of the node it was read from.
pub open spec fn sorts_before(a: RawImportView, b: RawImportView) -> bool {
    text_lt(a.target, b.target) || (a.target == b.target && (a.byte_start < b.byte_start || (
    a.byte_start == b.byte_start && a.byte_end < b.byte_end)))
}

/// The imports with a non-empty target, in order.
pub open spec fn with_targets(s: Seq<RawImportView>) -> Seq<RawImportView>
    decreases s.len(),
{
    if s.len() == 0 {
        s
    } else if s.last().target.len() > 0 {
        with_targets(s.drop_last()).push(s.last())
    } else {
        with_targets(s.drop_last())
    }
}

/// Where `x` goes in `s` when the first `k` items of `s` are looked at from
/// the back: after the last one that `x` does not sort before.
pub open spec fn insert_pos(s: Seq<RawImportView>, x: RawImportView, k: int) -> int
    decreases k,
{
    if k <= 0 {
        0
    } else if sorts_before(x, s[k - 1]) {
        insert_pos(s, x, k - 1)
    } else {
        k
    }
}

/// `s` with `x` inserted after every item that `x` does not sort before.
pub open spec fn insert_sorted(s: Seq<RawImportView>, x: RawImportView) -> Seq<RawImportView> {
    s.insert(insert_pos(s, x, s.len() as int), x)
}

/// The stable sort of `s`: by target, then start, then end; items with the
/// same key keep their order.
pub open spec fn sort_imports(s: Seq<RawImportView>) -> Seq<RawImportView>
    decreases s.len(),
{
    if s.len() == 0 {
        s
    } else {
        insert_sorted(sort_imports(s.drop_last()), s.last())
    }
}

/// `s` without an item that equals the one kept before it.
pub open spec fn dedup_imports(s: Seq<RawImportView>) -> Seq<RawImportView>
    decreases s.len(),
{
    if s.len() == 0 {
        s
    } else {
        let d = dedup_imports(s.drop_last());
        if d.len() > 0 && d.last() == s.last() {
            d
        } else {
            d.push(s.last())
        }
    }
}

/// What is reported of the imports `s` found in a file.
pub open spec fn tidy_imports(s: Seq<RawImportView>) -> Seq<RawImportView> {
    dedup_imports(sort_imports(with_targets(s)))
}

proof fn lemma_text_lt_skip(a: Seq<char>, b: Seq<char>, k: int)
    requires
        0 <= k <= a.len(),
        k <= b.len(),
        a.take(k) == b.take(k),
    ensures
        text_lt(a, b) == text_lt(a.skip(k), b.skip(k)),
    decreases k,
{
    if k > 0 {
        assert(a[0] == a.take(k)[0]);
        assert(b[0] == b.take(k)[0]);
        assert(a.drop_first().take(k - 1) =~= a.take(k).drop_first());
        assert(b.drop_first().take(k - 1) =~= b.take(k).drop_first());
        lemma_text_lt_skip(a.drop_first(), b.drop_first(), k - 1);
        assert(a.drop_first().skip(k - 1) =~= a.skip(k));
        assert(b.drop_first().skip(k - 1) =~= b.skip(k));
    } else {
        assert(a.skip(0) =~= a);
        assert(b.skip(0) =~= b);
    }
}

/// Whether text `a` comes before text `b`.
pub fn chars_lt(a: &[char], b: &[char]) -> (res: bool)
    ensures
        res == text_lt(a@, b@),
{
    let mut k: usize = 0;
    while k < a.len() && k < b.len() && a[k] == b[k]
        invariant
            k <= a@.len(),
            k <= b@.len(),
            a@.take(k as int) == b@.take(k as int),
        decreases a.len() - k,
    {
        proof {
            assert(a@.take(k + 1) =~= a@.take(k as int).push(a@[k as int]));
            assert(b@.take(k + 1) =~= b@.take(k as int).push(b@[k as int]));
        }
        k = k + 1;
    }
    proof {
        lemma_text_lt_skip(a@, b@, k as int);
    }
    if k == a.len() {
        proof {
            assert(a@.skip(k as int).len() == 0);
        }
        k < b.len()
    } else if k == b.len() {
        false
    } else {
        proof {
            assert(a@.skip(k as int)[0] == a@[k as int]);
            assert(b@.skip(k as int)[0] == b@[k as int]);
        }
        a[k] < b[k]
    }
}

/// Whether `a` sorts strictly before `b`.
pub fn import_before(a: &RawImport, b: &RawImport) -> (res: bool)
    ensures
        res == sorts_before(a@, b@),
{
    let x = to_chars(a.target.as_str());
    let y = to_chars(b.target.as_str());
    if chars_lt(&x, &y) {
        true
    } else if chars_eq(&x, &y) {
        a.byte_start < b.byte_start || (a.byte_start == b.byte_start && a.byte_end < b.byte_end)
    } else {
        false
    }
}

/// A copy of a list of strings.
pub fn copy_strings(v: &Vec<String>) -> (res: Vec<String>)
    ensures
        res.deep_view() == v.deep_view(),
{
    let mut out: Vec<String> = Vec::new();
    let mut k: usize = 0;
    while k < v.len()
        invariant
            k <= v@.len(),
            out.deep_view() == v.deep_view().take(k as int),
        decreases v.len() - k,
    {
        let ghost before = out.deep_view();
        out.push(v[k].clone());
        proof {
            assert(out.deep_view() =~= before.push(v@[k as int]@));
            assert(v.deep_view().take(k + 1) =~= v.deep_view().take(k as int).push(v@[k as int]@));
        }
        k = k + 1;
    }
    proof {
        assert(v.deep_view().take(v@.len() as int) =~= v.deep_view());
    }
    out
}

/// A copy of an import.
pub fn copy_import(x: &RawImport) -> (res: RawImport)
    ensures
        res@ == x@,
{
    RawImport {
        target: x.target.clone(),
        kind: x.kind,
        symbols: copy_strings(&x.symbols),
        byte_start: x.byte_start,
        byte_end: x.byte_end,
    }
}

/// Whether two lists of strings are equal.
pub fn same_strings(a: &Vec<String>, b: &Vec<String>) -> (res: bool)
    ensures
        res == (a.deep_view() == b.deep_view()),
{
    if a.len() != b.len() {
        proof {
            assert(a.deep_view().len() != b.deep_view().len());
        }
        return false;
    }
    let mut k: usize = 0;
    while k < a.len()
        invariant
            k <= a@.len(),
            a@.len() == b@.len(),
            a.deep_view().take(k as int) == b.deep_view().take(k as int),
        decreases a.len() - k,
    {
        let x = to_chars(a[k].as_str());
        let y = to_chars(b[k].as_str());
        if !chars_eq(&x, &y) {
            proof {
                assert(a.deep_view()[k as int] != b.deep_view()[k as int]);
            }
            return false;
        }
        proof {
            assert(a.deep_view().take(k + 1) =~= a.deep_view().take(k as int).push(a@[k as int]@));
            assert(b.deep_view().take(k + 1) =~= b.deep_view().take(k as int).push(b@[k as int]@));
        }
        k = k + 1;
    }
    proof {
        assert(a.deep_view().take(a@.len() as int) =~= a.deep_view());
        assert(b.deep_view().take(b@.len() as int) =~= b.deep_view());
    }
    true
}

/// Whether two imports are equal in every field.
pub fn same_import(a: &RawImport, b: &RawImport) -> (res: bool)
    ensures
        res == (a@ == b@),
{
    let x = to_chars(a.target.as_str());
    let y = to_chars(b.target.as_str());
    chars_eq(&x, &y) && a.kind == b.kind && same_strings(&a.symbols, &b.symbols) && a.byte_start
        == b.byte_start && a.byte_end == b.byte_end
}

/// The imports to report of those found in a file: empty targets dropped,
/// sorted by target, start and end (stably), repeated neighbours dropped.
pub fn tidy(raw: &Vec<RawImport>) -> (res: Vec<RawImport>)
    ensures
        imports_view(res@) == tidy_imports(imports_view(raw@)),
{
    let ghost rv = imports_view(raw@);
    // Keep the imports with a target, sorting each into place.
    let mut sorted: Vec<RawImport> = Vec::new();
    let mut k: usize = 0;
    proof {
        assert(rv.take(0) =~= Seq::<RawImportView>::empty());
        assert(imports_view(sorted@) =~= Seq::<RawImportView>::empty());
    }
    while k < raw.len()
        invariant
            k <= raw@.len(),
            rv == imports_view(raw@),
            imports_view(sorted@) == sort_imports(with_targets(rv.take(k as int))),
        decreases raw.len() - k,
    {
        let x = &raw[k];
        proof {
            assert(rv.take(k + 1) =~= rv.take(k as int).push(x@));
            assert(rv.take(k + 1).drop_last() =~= rv.take(k as int));
        }
        if !x.target.as_str().is_empty() {
            let ghost s = imports_view(sorted@);
            let mut p: usize = sorted.len();
            while p > 0 && import_before(x, &sorted[p - 1])
                invariant
                    p <= sorted@.len(),
                    s == imports_view(sorted@),
                    insert_pos(s, x@, p as int) == insert_pos(s, x@, s.len() as int),
                decreases p,
            {
                p = p - 1;
            }
            proof {
                assert(insert_pos(s, x@, p as int) == p);
            }
            sorted.insert(p, copy_import(x));
            proof {
                assert(imports_view(sorted@) =~= s.insert(p as int, x@));
                let w = with_targets(rv.take(k as int));
                assert(with_targets(rv.take(k + 1)) == w.push(x@));
                assert(w.push(x@).drop_last() =~= w);
                assert(sort_imports(w.push(x@)) == insert_sorted(sort_imports(w), x@));
            }
        } else {
            proof {
                assert(with_targets(rv.take(k + 1)) == with_targets(rv.take(k as int)));
            }
        }
        k = k + 1;
    }
    proof {
        assert(rv.take(raw@.len() as int) =~= rv);
    }
    // Drop each import equal to the one kept before it.
    let ghost sv = imports_view(sorted@);
    let mut out: Vec<RawImport> = Vec::new();
    let mut j: usize = 0;
    proof {
        assert(sv.take(0) =~= Seq::<RawImportView>::empty());
        assert(imports_view(out@) =~= Seq::<RawImportView>::empty());
    }
    while j < sorted.len()
        invariant
            j <= sorted@.len(),
            sv == imports_view(sorted@),
            imports_view(out@) == dedup_imports(sv.take(j as int)),
        decreases sorted.len() - j,
    {
        let x = &sorted[j];
        proof {
            assert(sv.take(j + 1).drop_last() =~= sv.take(j as int));
            assert(sv.take(j + 1).last() == x@);
        }
        let ghost before = imports_view(out@);
        let repeat = out.len() > 0 && same_import(&out[out.len() - 1], x);
        if !repeat {
            out.push(copy_import(x));
            proof {
                assert(imports_view(out@) =~= before.push(x@));
            }
        }
        j = j + 1;
    }
    proof {
        assert(sv.take(sorted@.len() as int) =~= sv);
    }
    out
}

/// Whether `s` is in report order: no item sorts before one ahead of it.
pub open spec fn in_report_order(s: Seq<RawImportView>) -> bool {
    forall|i: int, j: int| 0 <= i < j < s.len() ==> !sorts_before(#[trigger] s[j], #[trigger] s[i])
}

proof fn lemma_text_lt_irreflexive(a: Seq<char>)
    ensures
        !text_lt(a, a),
    decreases a.len(),
{
    if a.len() > 0 {
        lemma_text_lt_irreflexive(a.drop_first());
    }
}

proof fn lemma_text_lt_total(a: Seq<char>, b: Seq<char>)
    ensures
        a == b || text_lt(a, b) || text_lt(b, a),
        !(text_lt(a, b) && text_lt(b, a)),
    decreases a.len(),
{
    if a.len() == 0 {
        if b.len() == 0 {
            assert(a =~= b);
        }
    } else if b.len() > 0 {
        if a[0] == b[0] {
            lemma_text_lt_total(a.drop_first(), b.drop_first());
            if a.drop_first() == b.drop_first() {
                assert(a =~= seq![a[0]] + a.drop_first());
                assert(b =~= seq![b[0]] + b.drop_first());
            }
        } else {
            assert((a[0] as int) != (b[0] as int));
        }
    }
}

proof fn lemma_text_lt_transitive(a: Seq<char>, b: Seq<char>, c: Seq<char>)
    requires
        text_lt(a, b),
        text_lt(b, c),
    ensures
        text_lt(a, c),
    decreases a.len(),
{
    if a.len() > 0 && b.len() > 0 && c.len() > 0 && a[0] == b[0] && b[0] == c[0] {
        lemma_text_lt_transitive(a.drop_first(), b.drop_first(), c.drop_first());
    }
}

/// Not sorting before is total and transitive on imports.
proof fn lemma_order_facts(a: RawImportView, b: RawImportView, c: RawImportView)
    ensures
        !sorts_before(a, a),
        sorts_before(a, b) ==> !sorts_before(b, a),
        !sorts_before(a, b) && !sorts_before(b, c) ==> !sorts_before(a, c),
{
    lemma_text_lt_irreflexive(a.target);
    lemma_text_lt_total(a.target, b.target);
    lemma_text_lt_total(b.target, c.target);
    lemma_text_lt_total(a.target, c.target);
    if text_lt(c.target, b.target) && text_lt(b.target, a.target) {
        lemma_text_lt_transitive(c.target, b.target, a.target);
    }
    if text_lt(a.target, c.target) && text_lt(c.target, b.target) {
        lemma_text_lt_transitive(a.target, c.target, b.target);
    }
    if text_lt(b.target, a.target) && text_lt(a.target, c.target) {
        lemma_text_lt_transitive(b.target, a.target, c.target);
    }
}

proof fn lemma_insert_pos(s: Seq<RawImportView>, x: RawImportView, k: int)
    requires
        0 <= k <= s.len(),
    ensures
        0 <= insert_pos(s, x, k) <= k,
        forall|j: int| insert_pos(s, x, k) <= j < k ==> sorts_before(x, #[trigger] s[j]),
        insert_pos(s, x, k) > 0 ==> !sorts_before(x, s[insert_pos(s, x, k) - 1]),
    decreases k,
{
    if k > 0 && sorts_before(x, s[k - 1]) {
        lemma_insert_pos(s, x, k - 1);
    }
}

proof fn lemma_insert_sorted(s: Seq<RawImportView>, x: RawImportView)
    requires
        in_report_order(s),
    ensures
        in_report_order(insert_sorted(s, x)),
        insert_sorted(s, x).to_multiset() == s.to_multiset().insert(x),
{
    let p = insert_pos(s, x, s.len() as int);
    lemma_insert_pos(s, x, s.len() as int);
    let t = insert_sorted(s, x);
    assert(t.len() == s.len() + 1);
    assert forall|i: int, j: int| 0 <= i < j < t.len() implies !sorts_before(#[trigger] t[j], #[trigger] t[i]) by {
        if i < p && j < p {
            assert(t[i] == s[i] && t[j] == s[j]);
        } else if i < p && j == p {
            assert(t[i] == s[i] && t[j] == x);
            lemma_order_facts(x, s[p - 1], s[i]);
            if i < p - 1 {
                assert(!sorts_before(s[p - 1], s[i]));
            }
        } else if i < p {
            assert(t[i] == s[i] && t[j] == s[j - 1]);
        } else if i == p {
            assert(t[i] == x && t[j] == s[j - 1]);
            lemma_order_facts(x, s[j - 1], x);
        } else {
            assert(t[i] == s[i - 1] && t[j] == s[j - 1]);
        }
    }
    vstd::seq_lib::to_multiset_insert(s, p, x);
}

proof fn lemma_sort_imports(s: Seq<RawImportView>)
    ensures
        in_report_order(sort_imports(s)),
        sort_imports(s).to_multiset() == s.to_multiset(),
    decreases s.len(),
{
    if s.len() == 0 {
        assert(sort_imports(s) =~= s);
    } else {
        lemma_sort_imports(s.drop_last());
        lemma_insert_sorted(sort_imports(s.drop_last()), s.last());
        assert(s =~= s.drop_last().push(s.last()));
        vstd::seq_lib::to_multiset_build(s.drop_last(), s.last());
    }
}

proof fn lemma_with_targets(s: Seq<RawImportView>)
    ensures
        forall|i: int| 0 <= i < with_targets(s).len() ==> (#[trigger] with_targets(s)[i]).target.len() > 0,
        forall|x: RawImportView| #[trigger] with_targets(s).contains(x) <==> (s.contains(x) && x.target.len() > 0),
    decreases s.len(),
{
    if s.len() > 0 {
        lemma_with_targets(s.drop_last());
        let w = with_targets(s.drop_last());
        assert forall|x: RawImportView| #[trigger] with_targets(s).contains(x) <==> (s.contains(x) && x.target.len() > 0) by {
            if s.contains(x) && x.target.len() > 0 {
                let k = choose|k: int| 0 <= k < s.len() && s[k] == x;
                if k < s.len() - 1 {
                    assert(s.drop_last()[k] == x);
                    assert(s.drop_last().contains(x));
                    assert(w.contains(x));
                    if s.last().target.len() > 0 {
                        let q = choose|q: int| 0 <= q < w.len() && w[q] == x;
                        assert(w.push(s.last())[q] == x);
                    }
                } else {
                    assert(w.push(s.last())[w.len() as int] == x);
                }
            }
            if with_targets(s).contains(x) {
                let q = choose|q: int| 0 <= q < with_targets(s).len() && with_targets(s)[q] == x;
                if s.last().target.len() > 0 && q == w.len() {
                    assert(s[s.len() - 1] == x);
                } else {
                    assert(w[q] == x);
                    assert(w.contains(x));
                    let k = choose|k: int| 0 <= k < s.drop_last().len() && s.drop_last()[k] == x;
                    assert(s[k] == x);
                }
            }
        }
        assert forall|i: int| 0 <= i < with_targets(s).len() implies (#[trigger] with_targets(s)[i]).target.len() > 0 by {
            if s.last().target.len() > 0 && i == w.len() {
            } else {
                assert(with_targets(s)[i] == w[i]);
            }
        }
    }
}

proof fn lemma_dedup_imports(s: Seq<RawImportView>)
    ensures
        forall|x: RawImportView| #[trigger] dedup_imports(s).contains(x) <==> s.contains(x),
        forall|i: int| 0 <= i < dedup_imports(s).len() - 1 ==> dedup_imports(s)[i] != #[trigger] dedup_imports(s)[i + 1],
        in_report_order(s) ==> in_report_order(dedup_imports(s)),
        dedup_imports(s).len() > 0 ==> s.len() > 0 && dedup_imports(s).last() == s.last(),
    decreases s.len(),
{
    if s.len() > 0 {
        let p = s.drop_last();
        lemma_dedup_imports(p);
        let d = dedup_imports(p);
        assert(s =~= p.push(s.last()));
        assert forall|x: RawImportView| #[trigger] dedup_imports(s).contains(x) <==> s.contains(x) by {
            if s.contains(x) {
                let k = choose|k: int| 0 <= k < s.len() && s[k] == x;
                if k < s.len() - 1 {
                    assert(p[k] == x);
                    assert(p.contains(x));
                    assert(d.contains(x));
                    let q = choose|q: int| 0 <= q < d.len() && d[q] == x;
                    if !(d.len() > 0 && d.last() == s.last()) {
                        assert(d.push(s.last())[q] == x);
                    }
                } else if d.len() > 0 && d.last() == s.last() {
                    assert(d[d.len() - 1] == x);
                } else {
                    assert(d.push(s.last())[d.len() as int] == x);
                }
            }
            if dedup_imports(s).contains(x) {
                let q = choose|q: int| 0 <= q < dedup_imports(s).len() && dedup_imports(s)[q] == x;
                if !(d.len() > 0 && d.last() == s.last()) && q == d.len() {
                    assert(s[s.len() - 1] == x);
                } else {
                    assert(d[q] == x);
                    assert(d.contains(x));
                    let k = choose|k: int| 0 <= k < p.len() && p[k] == x;
                    assert(s[k] == x);
                }
            }
        }
        if in_report_order(s) {
            assert forall|i: int, j: int| 0 <= i < j < p.len() implies !sorts_before(#[trigger] p[j], #[trigger] p[i]) by {
                assert(p[i] == s[i] && p[j] == s[j]);
            }
            let t = dedup_imports(s);
            assert forall|i: int, j: int| 0 <= i < j < t.len() implies !sorts_before(#[trigger] t[j], #[trigger] t[i]) by {
                if !(d.len() > 0 && d.last() == s.last()) && j == d.len() {
                    assert(t[i] == d[i]);
                    assert(d.contains(d[i]));
                    assert(p.contains(d[i]));
                    let k = choose|k: int| 0 <= k < p.len() && p[k] == d[i];
                    assert(s[k] == d[i]);
                    assert(t[j] == s[s.len() - 1]);
                } else {
                    assert(t[i] == d[i] && t[j] == d[j]);
                }
            }
        }
    }
}

/// What `extract_imports` reports is in report order (by target, then start
/// and end of the node), holds no empty target and no item twice in a row,
/// and holds exactly the found imports that have a target.
pub proof fn law_tidy_imports(s: Seq<RawImportView>)
    ensures
        in_report_order(tidy_imports(s)),
        forall|i: int| 0 <= i < tidy_imports(s).len() ==> (#[trigger] tidy_imports(s)[i]).target.len() > 0,
        forall|i: int| 0 <= i < tidy_imports(s).len() - 1 ==> tidy_imports(s)[i] != #[trigger] tidy_imports(s)[i + 1],
        forall|x: RawImportView| #[trigger] tidy_imports(s).contains(x) <==> (s.contains(x) && x.target.len() > 0),
{
    let w = with_targets(s);
    lemma_with_targets(s);
    lemma_sort_imports(w);
    let t = sort_imports(w);
    lemma_dedup_imports(t);
    assert forall|x: RawImportView| #[trigger] t.contains(x) <==> w.contains(x) by {
        vstd::seq_lib::to_multiset_contains(t, x);
        vstd::seq_lib::to_multiset_contains(w, x);
    }
    assert forall|i: int| 0 <= i < tidy_imports(s).len() implies (#[trigger] tidy_imports(s)[i]).target.len() > 0 by {
        let x = tidy_imports(s)[i];
        assert(tidy_imports(s).contains(x));
    }
}

} // verus!
