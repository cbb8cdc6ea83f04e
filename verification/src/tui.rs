//! Per-language statistics of a scan, as the terminal shows them while
//! files arrive, and as the summary table lists them.

use vstd::prelude::*;
use crate::graph::GraphData;
use crate::lang::Language;
use crate::walker::FileResult;

verus! {

/// Totals of a group of files.
#[derive(Debug, Clone, Copy, PartialEq, Eq, Structural)]
pub struct LangStats {
    pub files: usize,
    pub lines: u64,
    pub code: u64,
    pub comments: u64,
    pub blanks: u64,
}

impl Default for LangStats {
    /// No files.
    fn default() -> (res: LangStats)
        ensures
            res.files == 0 && res.lines == 0 && res.code == 0 && res.comments == 0 && res.blanks
                == 0,
    {
        LangStats { files: 0, lines: 0, code: 0, comments: 0, blanks: 0 }
    }
}

/// The mathematical value of a `LangStats`.
pub struct Counts {
    pub files: int,
    pub lines: int,
    pub code: int,
    pub comments: int,
    pub blanks: int,
}

/// No files.
pub open spec fn no_counts() -> Counts {
    Counts { files: 0, lines: 0, code: 0, comments: 0, blanks: 0 }
}

/// The counts of `s`.
pub open spec fn counts_of(s: LangStats) -> Counts {
    Counts {
        files: s.files as int,
        lines: s.lines as int,
        code: s.code as int,
        comments: s.comments as int,
        blanks: s.blanks as int,
    }
}

/// `c` with the file `f` added.
pub open spec fn plus_file(c: Counts, f: FileResult) -> Counts {
    Counts {
        files: c.files + 1,
        lines: c.lines + f.lines,
        code: c.code + f.code,
        comments: c.comments + f.comments,
        blanks: c.blanks + f.blanks,
    }
}

/// The sum of two counts.
pub open spec fn plus(a: Counts, b: Counts) -> Counts {
    Counts {
        files: a.files + b.files,
        lines: a.lines + b.lines,
        code: a.code + b.code,
        comments: a.comments + b.comments,
        blanks: a.blanks + b.blanks,
    }
}

/// Whether counts fit the fields of a `LangStats`.
pub open spec fn fits(c: Counts) -> bool {
    0 <= c.files <= usize::MAX && 0 <= c.lines <= u64::MAX && 0 <= c.code <= u64::MAX && 0
        <= c.comments <= u64::MAX && 0 <= c.blanks <= u64::MAX
}

/// The totals of the files of `files` in language `lang`.
pub open spec fn lang_counts(files: Seq<FileResult>, lang: Language) -> Counts
    decreases files.len(),
{
    if files.len() == 0 {
        no_counts()
    } else if files.last().language == lang {
        plus_file(lang_counts(files.drop_last(), lang), files.last())
    } else {
        lang_counts(files.drop_last(), lang)
    }
}

/// The position of a language in the order languages are listed in.
pub open spec fn rank(l: Language) -> int {
    match l {
        Language::Rust => 0,
        Language::TypeScript => 1,
        Language::JavaScript => 2,
        Language::Python => 3,
        Language::Go => 4,
        Language::C => 5,
        Language::Cpp => 6,
        Language::Java => 7,
        Language::Bash => 8,
        Language::Make => 9,
        Language::CMake => 10,
        Language::Unknown => 11,
    }
}

fn rank_exec(l: Language) -> (res: u8)
    ensures
        res == rank(l),
{
    match l {
        Language::Rust => 0,
        Language::TypeScript => 1,
        Language::JavaScript => 2,
        Language::Python => 3,
        Language::Go => 4,
        Language::C => 5,
        Language::Cpp => 6,
        Language::Java => 7,
        Language::Bash => 8,
        Language::Make => 9,
        Language::CMake => 10,
        Language::Unknown => 11,
    }
}

/// Whether `rows` lists each language at most once, in language order.
pub open spec fn rows_wf(rows: Seq<(Language, LangStats)>) -> bool {
    forall|i: int, j: int| 0 <= i < j < rows.len() ==> rank(#[trigger] rows[i].0) < rank(#[trigger] rows[j].0)
}

/// The counts that `rows` holds for `lang`.
pub open spec fn row_of(rows: Seq<(Language, LangStats)>, lang: Language) -> Option<Counts>
    decreases rows.len(),
{
    if rows.len() == 0 {
        None
    } else if rows.last().0 == lang {
        Some(counts_of(rows.last().1))
    } else {
        row_of(rows.drop_last(), lang)
    }
}

/// The counts that `rows` holds for `lang`, none when it holds none.
pub open spec fn row_or_zero(rows: Seq<(Language, LangStats)>, lang: Language) -> Counts {
    match row_of(rows, lang) {
        Some(c) => c,
        None => no_counts(),
    }
}

/// The sum of the counts of `rows`.
pub open spec fn rows_total(rows: Seq<(Language, LangStats)>) -> Counts
    decreases rows.len(),
{
    if rows.len() == 0 {
        no_counts()
    } else {
        plus(rows_total(rows.drop_last()), counts_of(rows.last().1))
    }
}

proof fn lemma_row_of_index(rows: Seq<(Language, LangStats)>, k: int)
    requires
        rows_wf(rows),
        0 <= k < rows.len(),
    ensures
        row_of(rows, rows[k].0) == Some(counts_of(rows[k].1)),
    decreases rows.len(),
{
    if k < rows.len() - 1 {
        assert(rank(rows[k].0) < rank(rows[rows.len() - 1].0));
        assert(rows.drop_last()[k] == rows[k]);
        lemma_row_of_index(rows.drop_last(), k);
    }
}

proof fn lemma_row_of_absent(rows: Seq<(Language, LangStats)>, lang: Language)
    requires
        forall|k: int| 0 <= k < rows.len() ==> (#[trigger] rows[k]).0 != lang,
    ensures
        row_of(rows, lang) is None,
    decreases rows.len(),
{
    if rows.len() > 0 {
        assert(rows[rows.len() - 1].0 != lang);
        assert forall|k: int| 0 <= k < rows.drop_last().len() implies (#[trigger] rows.drop_last()[k]).0
            != lang by {
            assert(rows.drop_last()[k] == rows[k]);
        }
        lemma_row_of_absent(rows.drop_last(), lang);
    }
}

/// `c` as a `LangStats`.
fn stats_from(files: usize, lines: u64, code: u64, comments: u64, blanks: u64) -> (res: LangStats)
    ensures
        res.files == files && res.lines == lines && res.code == code && res.comments == comments
            && res.blanks == blanks,
{
    LangStats { files, lines, code, comments, blanks }
}

/// Adds the file `file` to the row of its language, making one in language
/// order when there is none.
pub fn add_to_rows(rows: &mut Vec<(Language, LangStats)>, file: &FileResult)
    requires
        rows_wf(old(rows)@),
        fits(plus_file(row_or_zero(old(rows)@, file.language), *file)),
    ensures
        rows_wf(final(rows)@),
        forall|l: Language|
            #![trigger row_of(final(rows)@, l)]
            row_of(final(rows)@, l) == if l == file.language {
                Some(plus_file(row_or_zero(old(rows)@, l), *file))
            } else {
                row_of(old(rows)@, l)
            },
{
    let ghost old_rows = rows@;
    let r = rank_exec(file.language);
    let mut k: usize = 0;
    while k < rows.len() && rank_exec(rows[k].0) < r
        invariant
            k <= rows@.len(),
            rows@ == old_rows,
            r == rank(file.language),
            forall|q: int| 0 <= q < k ==> rank(#[trigger] rows@[q].0) < r,
        decreases rows.len() - k,
    {
        k = k + 1;
    }
    if k < rows.len() && rows[k].0 == file.language {
        let s = rows[k].1;
        proof {
            lemma_row_of_index(old_rows, k as int);
        }
        let n = stats_from(
            s.files + 1,
            s.lines + file.lines,
            s.code + file.code,
            s.comments + file.comments,
            s.blanks + file.blanks,
        );
        rows.set(k, (file.language, n));
        proof {
            assert forall|i: int, j: int| 0 <= i < j < rows@.len() implies rank(#[trigger] rows@[i].0)
                < rank(#[trigger] rows@[j].0) by {
                assert(rows@[i].0 == old_rows[i].0);
                assert(rows@[j].0 == old_rows[j].0);
            }
            lemma_row_of_index(rows@, k as int);
            assert forall|l: Language| #![trigger row_of(rows@, l)] l != file.language implies row_of(
                rows@,
                l,
            ) == row_of(old_rows, l) by {
                lemma_row_of_other(old_rows, rows@, l, k as int);
            }
        }
    } else {
        proof {
            assert forall|q: int| 0 <= q < old_rows.len() implies (#[trigger] old_rows[q]).0
                != file.language by {
                if q >= k {
                    if q > k {
                        assert(rank(old_rows[k as int].0) < rank(old_rows[q].0));
                    }
                }
            }
            lemma_row_of_absent(old_rows, file.language);
        }
        let n = stats_from(1, file.lines, file.code, file.comments, file.blanks);
        rows.insert(k, (file.language, n));
        proof {
            assert forall|i: int, j: int| 0 <= i < j < rows@.len() implies rank(#[trigger] rows@[i].0)
                < rank(#[trigger] rows@[j].0) by {
                if i < k && j < k {
                    assert(rows@[i] == old_rows[i] && rows@[j] == old_rows[j]);
                } else if i < k && j == k {
                } else if i < k {
                    assert(rows@[i] == old_rows[i] && rows@[j] == old_rows[j - 1]);
                    if j - 1 > k {
                        assert(rank(old_rows[k as int].0) < rank(old_rows[j - 1].0));
                    }
                } else if i == k {
                    assert(rows@[j] == old_rows[j - 1]);
                    if j - 1 > k {
                        assert(rank(old_rows[k as int].0) < rank(old_rows[j - 1].0));
                    }
                } else {
                    assert(rows@[i] == old_rows[i - 1] && rows@[j] == old_rows[j - 1]);
                }
            }
            lemma_row_of_index(rows@, k as int);
            assert forall|l: Language| #![trigger row_of(rows@, l)] l != file.language implies row_of(
                rows@,
                l,
            ) == row_of(old_rows, l) by {
                lemma_row_of_insert(old_rows, rows@, l, k as int);
            }
        }
    }
}

proof fn lemma_row_of_other(
    a: Seq<(Language, LangStats)>,
    b: Seq<(Language, LangStats)>,
    l: Language,
    k: int,
)
    requires
        a.len() == b.len(),
        0 <= k < a.len(),
        a[k].0 == b[k].0,
        a[k].0 != l,
        forall|i: int| 0 <= i < a.len() && i != k ==> a[i] == b[i],
    ensures
        row_of(b, l) == row_of(a, l),
    decreases a.len(),
{
    if a.len() > 0 {
        if k < a.len() - 1 {
            assert(a.last() == b.last());
            lemma_row_of_other(a.drop_last(), b.drop_last(), l, k);
        } else {
            assert(a.drop_last() =~= b.drop_last());
        }
    }
}

proof fn lemma_row_of_insert(
    a: Seq<(Language, LangStats)>,
    b: Seq<(Language, LangStats)>,
    l: Language,
    k: int,
)
    requires
        b.len() == a.len() + 1,
        0 <= k <= a.len(),
        b[k].0 != l,
        forall|i: int| 0 <= i < k ==> b[i] == a[i],
        forall|i: int| k < i < b.len() ==> b[i] == a[i - 1],
    ensures
        row_of(b, l) == row_of(a, l),
    decreases a.len(),
{
    if k == a.len() {
        assert(b.drop_last() =~= a);
    } else {
        assert(b.last() == a.last());
        lemma_row_of_insert(a.drop_last(), b.drop_last(), l, k);
    }
}

/// The counts that recording `files` in order adds to `c`, for the files
/// of `lang`.
pub proof fn lemma_lang_counts_push(files: Seq<FileResult>, f: FileResult, lang: Language)
    ensures
        lang_counts(files.push(f), lang) == if f.language == lang {
            plus_file(lang_counts(files, lang), f)
        } else {
            lang_counts(files, lang)
        },
{
    assert(files.push(f).drop_last() =~= files);
}

proof fn lemma_lang_counts_empty(files: Seq<FileResult>, lang: Language)
    ensures
        lang_counts(files, lang).files >= 0,
        lang_counts(files, lang).files == 0 ==> lang_counts(files, lang) == no_counts(),
    decreases files.len(),
{
    if files.len() > 0 {
        lemma_lang_counts_empty(files.drop_last(), lang);
    }
}

proof fn lemma_lang_counts_nonneg(files: Seq<FileResult>, lang: Language)
    ensures
        0 <= lang_counts(files, lang).files,
        0 <= lang_counts(files, lang).lines,
        0 <= lang_counts(files, lang).code,
        0 <= lang_counts(files, lang).comments,
        0 <= lang_counts(files, lang).blanks,
    decreases files.len(),
{
    if files.len() > 0 {
        lemma_lang_counts_nonneg(files.drop_last(), lang);
    }
}

/// Whether the totals of each language of `files` fit the fields of a
/// `LangStats`.
pub open spec fn languages_fit_spec(files: Seq<FileResult>) -> bool {
    forall|l: Language| #[trigger] fits(lang_counts(files, l))
}

proof fn lemma_lang_counts_prefix(files: Seq<FileResult>, n: int, l: Language)
    requires
        0 <= n <= files.len(),
    ensures
        0 <= lang_counts(files.take(n), l).files <= lang_counts(files, l).files,
        0 <= lang_counts(files.take(n), l).lines <= lang_counts(files, l).lines,
        0 <= lang_counts(files.take(n), l).code <= lang_counts(files, l).code,
        0 <= lang_counts(files.take(n), l).comments <= lang_counts(files, l).comments,
        0 <= lang_counts(files.take(n), l).blanks <= lang_counts(files, l).blanks,
    decreases files.len() - n,
{
    lemma_lang_counts_empty(files.take(n), l);
    lemma_lang_counts_nonneg(files.take(n), l);
    if n < files.len() {
        lemma_lang_counts_prefix(files.drop_last(), n, l);
        assert(files.drop_last().take(n) =~= files.take(n));
        lemma_lang_counts_empty(files.drop_last(), l);
    } else {
        assert(files.take(n) =~= files);
    }
}

/// Whether the file `file` can be added to the row of its language in
/// `rows`: the counts stay in range.
pub fn can_add(rows: &Vec<(Language, LangStats)>, file: &FileResult) -> (res: bool)
    requires
        rows_wf(rows@),
    ensures
        res == fits(plus_file(row_or_zero(rows@, file.language), *file)),
{
    let mut k: usize = 0;
    while k < rows.len()
        invariant
            k <= rows@.len(),
            rows_wf(rows@),
            forall|q: int| 0 <= q < k ==> (#[trigger] rows@[q]).0 != file.language,
        decreases rows.len() - k,
    {
        if rows[k].0 == file.language {
            let s = rows[k].1;
            proof {
                lemma_row_of_index(rows@, k as int);
                assert(row_or_zero(rows@, file.language) == counts_of(s));
            }
            return s.files < usize::MAX && s.lines <= u64::MAX - file.lines && s.code <= u64::MAX
                - file.code && s.comments <= u64::MAX - file.comments && s.blanks <= u64::MAX
                - file.blanks;
        }
        k = k + 1;
    }
    proof {
        lemma_row_of_absent(rows@, file.language);
    }
    file.lines <= u64::MAX && file.code <= u64::MAX && file.comments <= u64::MAX && file.blanks
        <= u64::MAX
}

/// The rows of `files` so far, built one file at a time; `None` as soon as
/// a language's totals leave the range of a `LangStats`.
fn rows_of(files: &[FileResult], checked: bool) -> (res: Option<Vec<(Language, LangStats)>>)
    requires
        !checked ==> languages_fit_spec(files@),
    ensures
        res is None <==> !languages_fit_spec(files@),
        res matches Some(rows) ==> rows_wf(rows@) && forall|l: Language|
            #![trigger row_of(rows@, l)]
            row_of(rows@, l) == if lang_counts(files@, l).files > 0 {
                Some(lang_counts(files@, l))
            } else {
                None
            },
{
    let mut rows: Vec<(Language, LangStats)> = Vec::new();
    let mut i: usize = 0;
    while i < files.len()
        invariant
            i <= files@.len(),
            !checked ==> languages_fit_spec(files@),
            rows_wf(rows@),
            forall|l: Language|
                #![trigger row_of(rows@, l)]
                row_of(rows@, l) == if lang_counts(files@.take(i as int), l).files > 0 {
                    Some(lang_counts(files@.take(i as int), l))
                } else {
                    None
                },
        decreases files.len() - i,
    {
        let f = &files[i];
        proof {
            assert(files@.take(i + 1) =~= files@.take(i as int).push(*f));
            lemma_lang_counts_push(files@.take(i as int), *f, f.language);
            lemma_lang_counts_prefix(files@, i + 1, f.language);
            lemma_lang_counts_empty(files@.take(i as int), f.language);
            assert(row_or_zero(rows@, f.language) == lang_counts(files@.take(i as int), f.language));
            if !checked {
                assert(fits(lang_counts(files@, f.language)));
            }
        }
        if checked && !can_add(&rows, f) {
            proof {
                assert(!fits(lang_counts(files@, f.language)));
            }
            return None;
        }
        add_to_rows(&mut rows, f);
        proof {
            assert forall|l: Language| #![trigger row_of(rows@, l)] row_of(rows@, l) == if lang_counts(
                files@.take(i + 1),
                l,
            ).files > 0 {
                Some(lang_counts(files@.take(i + 1), l))
            } else {
                None
            } by {
                lemma_lang_counts_push(files@.take(i as int), *f, l);
                lemma_lang_counts_empty(files@.take(i as int), l);
            }
        }
        i = i + 1;
    }
    proof {
        assert(files@.take(files@.len() as int) =~= files@);
        assert forall|l: Language| #[trigger] fits(lang_counts(files@, l)) by {
            lemma_lang_counts_empty(files@, l);
            if lang_counts(files@, l).files > 0 {
                lemma_row_of_member(rows@, l);
            }
        }
    }
    Some(rows)
}

proof fn lemma_row_of_member(rows: Seq<(Language, LangStats)>, l: Language)
    ensures
        row_of(rows, l) matches Some(c) ==> fits(c),
    decreases rows.len(),
{
    if rows.len() > 0 && rows.last().0 != l {
        lemma_row_of_member(rows.drop_last(), l);
    }
}

/// Whether the totals of each language of `files` fit the fields of a
/// `LangStats`.
pub fn languages_fit(files: &[FileResult]) -> (res: bool)
    ensures
        res == languages_fit_spec(files@),
{
    rows_of(files, true).is_some()
}

/// The rows of the summary table of `files`: one per language with files,
/// in language order, with the totals of its files.
pub fn aggregate(files: &[FileResult]) -> (res: Vec<(Language, LangStats)>)
    requires
        languages_fit_spec(files@),
    ensures
        rows_wf(res@),
        forall|l: Language|
            #![trigger row_of(res@, l)]
            row_of(res@, l) == if lang_counts(files@, l).files > 0 {
                Some(lang_counts(files@, l))
            } else {
                None
            },
{
    match rows_of(files, false) {
        Some(rows) => rows,
        None => Vec::new(),
    }
}

/// Whether row `a` comes before row `b` in the summary table: more lines,
/// then more files.
pub open spec fn row_before(a: LangStats, b: LangStats) -> bool {
    a.lines > b.lines || (a.lines == b.lines && a.files > b.files)
}

/// Where row `x` goes among the first `k` rows of `s`, looked at from the
/// back: after the last one it does not come before.
pub open spec fn row_pos(s: Seq<(Language, LangStats)>, x: (Language, LangStats), k: int) -> int
    decreases k,
{
    if k <= 0 {
        0
    } else if row_before(x.1, s[k - 1].1) {
        row_pos(s, x, k - 1)
    } else {
        k
    }
}

/// The rows of `s` in table order: by lines, then files, both descending;
/// rows that tie keep their order.
pub open spec fn table_order(s: Seq<(Language, LangStats)>) -> Seq<(Language, LangStats)>
    decreases s.len(),
{
    if s.len() == 0 {
        s
    } else {
        let t = table_order(s.drop_last());
        t.insert(row_pos(t, s.last(), t.len() as int), s.last())
    }
}

/// Whether no row of `s` comes before one ahead of it.
pub open spec fn in_table_order(s: Seq<(Language, LangStats)>) -> bool {
    forall|i: int, j: int| 0 <= i < j < s.len() ==> !row_before(#[trigger] s[j].1, #[trigger] s[i].1)
}

proof fn lemma_row_pos(s: Seq<(Language, LangStats)>, x: (Language, LangStats), k: int)
    requires
        0 <= k <= s.len(),
    ensures
        0 <= row_pos(s, x, k) <= k,
        forall|j: int| row_pos(s, x, k) <= j < k ==> row_before(x.1, #[trigger] s[j].1),
        row_pos(s, x, k) > 0 ==> !row_before(x.1, s[row_pos(s, x, k) - 1].1),
    decreases k,
{
    if k > 0 && row_before(x.1, s[k - 1].1) {
        lemma_row_pos(s, x, k - 1);
    }
}

/// The summary table lists its rows by lines, then files, both
/// descending, and lists each row it is given once.
pub proof fn law_table_order(s: Seq<(Language, LangStats)>)
    ensures
        in_table_order(table_order(s)),
        table_order(s).to_multiset() == s.to_multiset(),
    decreases s.len(),
{
    if s.len() > 0 {
        let t = table_order(s.drop_last());
        law_table_order(s.drop_last());
        let x = s.last();
        let p = row_pos(t, x, t.len() as int);
        lemma_row_pos(t, x, t.len() as int);
        let u = t.insert(p, x);
        assert forall|i: int, j: int| 0 <= i < j < u.len() implies !row_before(#[trigger] u[j].1, #[trigger] u[i].1) by {
            if i < p && j < p {
                assert(u[i] == t[i] && u[j] == t[j]);
            } else if i < p && j == p {
                assert(u[i] == t[i] && u[j] == x);
                if i < p - 1 {
                    assert(!row_before(t[p - 1].1, t[i].1));
                }
            } else if i < p {
                assert(u[i] == t[i] && u[j] == t[j - 1]);
            } else if i == p {
                assert(u[i] == x && u[j] == t[j - 1]);
            } else {
                assert(u[i] == t[i - 1] && u[j] == t[j - 1]);
            }
        }
        vstd::seq_lib::to_multiset_insert(t, p, x);
        assert(s =~= s.drop_last().push(x));
        vstd::seq_lib::to_multiset_build(s.drop_last(), x);
    }
}

/// The rows `rows` in the order the summary table lists them: by lines,
/// then files, both descending; rows that tie keep their order.
pub fn table_rows(rows: &Vec<(Language, LangStats)>) -> (res: Vec<(Language, LangStats)>)
    ensures
        res@ == table_order(rows@),
{
    let mut out: Vec<(Language, LangStats)> = Vec::new();
    let mut k: usize = 0;
    proof {
        assert(rows@.take(0) =~= Seq::<(Language, LangStats)>::empty());
    }
    while k < rows.len()
        invariant
            k <= rows@.len(),
            out@ == table_order(rows@.take(k as int)),
        decreases rows.len() - k,
    {
        let x = rows[k];
        let ghost t = out@;
        let mut p: usize = out.len();
        while p > 0 && (x.1.lines > out[p - 1].1.lines || (x.1.lines == out[p - 1].1.lines
            && x.1.files > out[p - 1].1.files))
            invariant
                p <= out@.len(),
                t == out@,
                row_pos(t, x, p as int) == row_pos(t, x, t.len() as int),
            decreases p,
        {
            p = p - 1;
        }
        out.insert(p, x);
        proof {
            assert(rows@.take(k + 1).drop_last() =~= rows@.take(k as int));
            assert(rows@.take(k + 1).last() == x);
        }
        k = k + 1;
    }
    proof {
        assert(rows@.take(rows@.len() as int) =~= rows@);
    }
    out
}

/// What the terminal shows of a scan: the totals of each language so far,
/// how many files were scanned and found, and how the scan ended.
pub struct App {
    pub stats: Vec<(Language, LangStats)>,
    pub total_files: usize,
    pub scanned_files: usize,
    pub done: bool,
    graph: Option<GraphData>,
    output: Option<String>,
    opened: bool,
    error: Option<String>,
}

impl Default for App {
    /// A view of a scan that has not begun.
    fn default() -> (res: App)
        ensures
            res.wf(),
            res.rows().len() == 0,
            res.found() == 0,
            res.scanned() == 0,
            !res.is_done(),
    {
        App::new()
    }
}

impl App {
    /// Whether the rows list each language at most once, in order.
    pub closed spec fn wf(&self) -> bool {
        rows_wf(self.stats@)
    }

    /// The rows of the languages seen so far.
    pub closed spec fn rows(&self) -> Seq<(Language, LangStats)> {
        self.stats@
    }

    /// How many files were scanned so far.
    pub closed spec fn scanned(&self) -> usize {
        self.scanned_files
    }

    /// How many files the finished scan found.
    pub closed spec fn found(&self) -> usize {
        self.total_files
    }

    /// Whether the scan ended.
    pub closed spec fn is_done(&self) -> bool {
        self.done
    }

    pub closed spec fn output_view(&self) -> Option<Seq<char>> {
        match self.output {
            Some(o) => Some(o@),
            None => None,
        }
    }

    pub closed spec fn error_view(&self) -> Option<Seq<char>> {
        match self.error {
            Some(e) => Some(e@),
            None => None,
        }
    }

    pub closed spec fn opened_view(&self) -> bool {
        self.opened
    }

    pub closed spec fn has_graph(&self) -> bool {
        self.graph is Some
    }

    /// A view of a scan that has not begun.
    pub fn new() -> (res: App)
        ensures
            res.wf(),
            res.rows().len() == 0,
            res.found() == 0,
            res.scanned() == 0,
            !res.is_done(),
            !res.has_graph(),
            res.output_view() is None,
            res.error_view() is None,
            !res.opened_view(),
    {
        App {
            stats: Vec::new(),
            total_files: 0,
            scanned_files: 0,
            done: false,
            graph: None,
            output: None,
            opened: false,
            error: None,
        }
    }

    /// Counts a scanned file: one more file scanned, and its counts added
    /// to its language.
    pub fn record_file(&mut self, file: &FileResult)
        requires
            old(self).wf(),
            old(self).scanned() < usize::MAX,
            fits(plus_file(row_or_zero(old(self).rows(), file.language), *file)),
        ensures
            final(self).wf(),
            final(self).scanned() == old(self).scanned() + 1,
            forall|l: Language|
                #![trigger row_of(final(self).rows(), l)]
                row_of(final(self).rows(), l) == if l == file.language {
                    Some(plus_file(row_or_zero(old(self).rows(), l), *file))
                } else {
                    row_of(old(self).rows(), l)
                },
            final(self).found() == old(self).found(),
            final(self).is_done() == old(self).is_done(),
            final(self).has_graph() == old(self).has_graph(),
            final(self).output_view() == old(self).output_view(),
            final(self).error_view() == old(self).error_view(),
            final(self).opened_view() == old(self).opened_view(),
    {
        self.scanned_files = self.scanned_files + 1;
        add_to_rows(&mut self.stats, file);
    }

    /// Whether `record_file` can count `file`: the counts stay in range.
    pub fn can_record(&self, file: &FileResult) -> (res: bool)
        requires
            self.wf(),
        ensures
            res == (self.scanned() < usize::MAX && fits(
                plus_file(row_or_zero(self.rows(), file.language), *file),
            )),
    {
        self.scanned_files < usize::MAX && can_add(&self.stats, file)
    }

    /// Whether the totals over all languages fit the fields of a `LangStats`.
    pub fn totals_fit(&self) -> (res: bool)
        ensures
            res == fits(rows_total(self.rows())),
    {
        let mut acc = stats_from(0, 0, 0, 0, 0);
        let mut i: usize = 0;
        proof {
            assert(self.stats@.take(0) =~= Seq::<(Language, LangStats)>::empty());
        }
        while i < self.stats.len()
            invariant
                i <= self.stats@.len(),
                counts_of(acc) == rows_total(self.stats@.take(i as int)),
            decreases self.stats.len() - i,
        {
            let s = self.stats[i].1;
            proof {
                assert(self.stats@.take(i + 1).drop_last() =~= self.stats@.take(i as int));
                lemma_rows_total_prefix(self.stats@, i + 1);
            }
            if acc.files > usize::MAX - s.files || acc.lines > u64::MAX - s.lines || acc.code
                > u64::MAX - s.code || acc.comments > u64::MAX - s.comments || acc.blanks > u64::MAX
                - s.blanks {
                return false;
            }
            acc = stats_from(
                acc.files + s.files,
                acc.lines + s.lines,
                acc.code + s.code,
                acc.comments + s.comments,
                acc.blanks + s.blanks,
            );
            i = i + 1;
        }
        proof {
            assert(self.stats@.take(self.stats@.len() as int) =~= self.stats@);
        }
        true
    }

    /// The totals over all languages.
    pub fn totals(&self) -> (res: LangStats)
        requires
            fits(rows_total(self.rows())),
        ensures
            counts_of(res) == rows_total(self.rows()),
    {
        let mut acc = stats_from(0, 0, 0, 0, 0);
        let mut i: usize = 0;
        proof {
            assert(self.rows().take(0) =~= Seq::<(Language, LangStats)>::empty());
        }
        while i < self.stats.len()
            invariant
                i <= self.rows().len(),
                fits(rows_total(self.rows())),
                counts_of(acc) == rows_total(self.rows().take(i as int)),
            decreases self.stats.len() - i,
        {
            let s = self.stats[i].1;
            proof {
                assert(self.rows().take(i + 1).drop_last() =~= self.rows().take(i as int));
                lemma_rows_total_prefix(self.rows(), i + 1);
            }
            acc = stats_from(
                acc.files + s.files,
                acc.lines + s.lines,
                acc.code + s.code,
                acc.comments + s.comments,
                acc.blanks + s.blanks,
            );
            i = i + 1;
        }
        proof {
            assert(self.rows().take(self.rows().len() as int) =~= self.rows());
        }
        acc
    }

    /// Marks the scan as ended, unless it already had: then nothing
    /// changes and `false` is returned.
    pub fn finish(&mut self) -> (res: bool)
        ensures
            res == !old(self).is_done(),
            final(self).is_done(),
            final(self).rows() == old(self).rows(),
            final(self).scanned() == old(self).scanned(),
            final(self).found() == old(self).found(),
            final(self).has_graph() == old(self).has_graph(),
            final(self).output_view() == old(self).output_view(),
            final(self).error_view() == old(self).error_view(),
            final(self).opened_view() == old(self).opened_view(),
    {
        if self.done {
            false
        } else {
            self.done = true;
            true
        }
    }

    /// Keeps the graph of a finished scan of `total_files` files.
    pub fn set_result(&mut self, total_files: usize, graph: GraphData)
        ensures
            final(self).found() == total_files,
            final(self).has_graph(),
            final(self).is_done() == old(self).is_done(),
            final(self).rows() == old(self).rows(),
            final(self).scanned() == old(self).scanned(),
            final(self).output_view() == old(self).output_view(),
            final(self).error_view() == old(self).error_view(),
            final(self).opened_view() == old(self).opened_view(),
    {
        self.total_files = total_files;
        self.graph = Some(graph);
    }

    /// The graph of the finished scan, if there is one.
    pub fn graph(&self) -> (res: Option<&GraphData>)
        ensures
            res is Some == self.has_graph(),
    {
        match &self.graph {
            Some(g) => Some(g),
            None => None,
        }
    }

    /// Records that the report was written at `output`.
    pub fn set_output(&mut self, output: String)
        ensures
            final(self).output_view() == Some(output@),
            final(self).is_done() == old(self).is_done(),
            final(self).rows() == old(self).rows(),
            final(self).scanned() == old(self).scanned(),
            final(self).found() == old(self).found(),
            final(self).has_graph() == old(self).has_graph(),
            final(self).error_view() == old(self).error_view(),
            final(self).opened_view() == old(self).opened_view(),
    {
        self.output = Some(output);
    }

    /// Where the report was written, if it was.
    pub fn output(&self) -> (res: Option<&String>)
        ensures
            match res {
                Some(o) => self.output_view() == Some(o@),
                None => self.output_view() is None,
            },
    {
        match &self.output {
            Some(o) => Some(o),
            None => None,
        }
    }

    /// Records that the report was opened.
    pub fn set_opened(&mut self)
        ensures
            final(self).opened_view(),
            final(self).is_done() == old(self).is_done(),
            final(self).rows() == old(self).rows(),
            final(self).scanned() == old(self).scanned(),
            final(self).found() == old(self).found(),
            final(self).has_graph() == old(self).has_graph(),
            final(self).output_view() == old(self).output_view(),
            final(self).error_view() == old(self).error_view(),
    {
        self.opened = true;
    }

    /// Whether the report was opened.
    pub fn opened(&self) -> (res: bool)
        ensures
            res == self.opened_view(),
    {
        self.opened
    }

    /// Records the error that ended the scan or the report.
    pub fn set_error(&mut self, message: String)
        ensures
            final(self).error_view() == Some(message@),
            final(self).is_done() == old(self).is_done(),
            final(self).rows() == old(self).rows(),
            final(self).scanned() == old(self).scanned(),
            final(self).found() == old(self).found(),
            final(self).has_graph() == old(self).has_graph(),
            final(self).output_view() == old(self).output_view(),
            final(self).opened_view() == old(self).opened_view(),
    {
        self.error = Some(message);
    }

    /// The error that ended the scan or the report, if one did.
    pub fn error(&self) -> (res: Option<&String>)
        ensures
            match res {
                Some(e) => self.error_view() == Some(e@),
                None => self.error_view() is None,
            },
    {
        match &self.error {
            Some(e) => Some(e),
            None => None,
        }
    }
}

proof fn lemma_rows_total_prefix(rows: Seq<(Language, LangStats)>, n: int)
    requires
        0 <= n <= rows.len(),
    ensures
        rows_total(rows.take(n)).files <= rows_total(rows).files,
        rows_total(rows.take(n)).lines <= rows_total(rows).lines,
        rows_total(rows.take(n)).code <= rows_total(rows).code,
        rows_total(rows.take(n)).comments <= rows_total(rows).comments,
        rows_total(rows.take(n)).blanks <= rows_total(rows).blanks,
    decreases rows.len() - n,
{
    if n < rows.len() {
        lemma_rows_total_prefix(rows.drop_last(), n);
        assert(rows.drop_last().take(n) =~= rows.take(n));
    } else {
        assert(rows.take(n) =~= rows);
    }
}

} // verus!
