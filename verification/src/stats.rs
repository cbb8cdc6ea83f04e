//! Line statistics: every line of a file is blank, comment or code.

use vstd::prelude::*;
use crate::lang::{block_comments, line_comments, CommentSyntax, Language};
use crate::text::{
    chars_contains, chars_starts_with, chars_trim, contains, lemma_contains_trim,
    lemma_lines_concat, lemma_pieces_concat, lemma_pieces_nonempty, lemma_pieces_single, lemma_pieces_within, lines, occurs_at, pieces,
    starts_with, to_chars, trim,
};

verus! {

/// How one line is counted.
#[derive(Debug, Clone, Copy, PartialEq, Eq, Structural)]
pub enum LineKind {
    Blank,
    Comment,
    Code,
}

/// Whether one of `prefixes` starts `t`.
pub open spec fn any_starts(t: Seq<char>, prefixes: Seq<Seq<char>>) -> bool {
    exists|i: int| 0 <= i < prefixes.len() && starts_with(t, #[trigger] prefixes[i])
}

/// The closing marker of the first block comment that `t` opens.
pub open spec fn first_block(t: Seq<char>, blocks: Seq<(Seq<char>, Seq<char>)>) -> Option<
    Seq<char>,
>
    decreases blocks.len(),
{
    if blocks.len() == 0 {
        None
    } else if starts_with(t, blocks[0].0) {
        Some(blocks[0].1)
    } else {
        first_block(t, blocks.drop_first())
    }
}

/// One line's kind, and the block comment still open after it, given the one
/// open before it.
pub open spec fn step(
    open: Option<Seq<char>>,
    line: Seq<char>,
    lcs: Seq<Seq<char>>,
    bcs: Seq<(Seq<char>, Seq<char>)>,
) -> (LineKind, Option<Seq<char>>) {
    let t = trim(line);
    if t.len() == 0 {
        (LineKind::Blank, open)
    } else {
        match open {
            Some(end) => (LineKind::Comment, if contains(t, end) {
                None
            } else {
                open
            }),
            None => if any_starts(t, lcs) {
                (LineKind::Comment, None)
            } else {
                match first_block(t, bcs) {
                    Some(end) => (LineKind::Comment, if contains(t, end) {
                        None
                    } else {
                        Some(end)
                    }),
                    None => (LineKind::Code, None),
                }
            },
        }
    }
}

/// Code, comment and blank counts of `ls`, and the block comment open at its end.
pub open spec fn tally(
    ls: Seq<Seq<char>>,
    lcs: Seq<Seq<char>>,
    bcs: Seq<(Seq<char>, Seq<char>)>,
) -> (nat, nat, nat, Option<Seq<char>>)
    decreases ls.len(),
{
    if ls.len() == 0 {
        (0, 0, 0, None)
    } else {
        let (c, m, b, open) = tally(ls.drop_last(), lcs, bcs);
        let (k, next) = step(open, ls.last(), lcs, bcs);
        match k {
            LineKind::Code => (c + 1, m, b, next),
            LineKind::Comment => (c, m + 1, b, next),
            LineKind::Blank => (c, m, b + 1, next),
        }
    }
}

/// Every line is counted exactly once.
pub proof fn lemma_tally_total(
    ls: Seq<Seq<char>>,
    lcs: Seq<Seq<char>>,
    bcs: Seq<(Seq<char>, Seq<char>)>,
)
    ensures
        tally(ls, lcs, bcs).0 + tally(ls, lcs, bcs).1 + tally(ls, lcs, bcs).2 == ls.len(),
    decreases ls.len(),
{
    if ls.len() > 0 {
        lemma_tally_total(ls.drop_last(), lcs, bcs);
    }
}

/// Counting two runs of lines one after the other, when no block comment is
/// open after the first, adds their counts.
pub proof fn lemma_tally_concat(
    ls1: Seq<Seq<char>>,
    ls2: Seq<Seq<char>>,
    lcs: Seq<Seq<char>>,
    bcs: Seq<(Seq<char>, Seq<char>)>,
)
    requires
        tally(ls1, lcs, bcs).3 is None,
    ensures
        tally(ls1 + ls2, lcs, bcs).0 == tally(ls1, lcs, bcs).0 + tally(ls2, lcs, bcs).0,
        tally(ls1 + ls2, lcs, bcs).1 == tally(ls1, lcs, bcs).1 + tally(ls2, lcs, bcs).1,
        tally(ls1 + ls2, lcs, bcs).2 == tally(ls1, lcs, bcs).2 + tally(ls2, lcs, bcs).2,
        tally(ls1 + ls2, lcs, bcs).3 == tally(ls2, lcs, bcs).3,
    decreases ls2.len(),
{
    if ls2.len() == 0 {
        assert(ls1 + ls2 =~= ls1);
    } else {
        lemma_tally_concat(ls1, ls2.drop_last(), lcs, bcs);
        assert((ls1 + ls2).drop_last() =~= ls1 + ls2.drop_last());
        assert((ls1 + ls2).last() == ls2.last());
    }
}

/// Lines none of which opens a block comment leave none open.
proof fn lemma_tally_closed(
    ls: Seq<Seq<char>>,
    lcs: Seq<Seq<char>>,
    bcs: Seq<(Seq<char>, Seq<char>)>,
)
    requires
        forall|k: int| 0 <= k < ls.len() ==> first_block(trim(#[trigger] ls[k]), bcs) is None,
    ensures
        tally(ls, lcs, bcs).3 is None,
    decreases ls.len(),
{
    if ls.len() > 0 {
        lemma_tally_closed(ls.drop_last(), lcs, bcs);
        assert(first_block(trim(ls[ls.len() - 1]), bcs) is None);
    }
}

/// Line counts add up over two texts put together, when the first is empty
/// or ends with a line feed and no block comment opens in it.
pub proof fn law_count_lines_concat(s1: Seq<char>, s2: Seq<char>, language: Language)
    requires
        s1.len() == 0 || s1.last() == '\n',
        block_comments(language).len() == 0 || !contains(s1, seq!['/', '*']),
    ensures
        lines(s1 + s2).len() == lines(s1).len() + lines(s2).len(),
        tally(lines(s1 + s2), line_comments(language), block_comments(language)).0 == tally(
            lines(s1),
            line_comments(language),
            block_comments(language),
        ).0 + tally(lines(s2), line_comments(language), block_comments(language)).0,
        tally(lines(s1 + s2), line_comments(language), block_comments(language)).1 == tally(
            lines(s1),
            line_comments(language),
            block_comments(language),
        ).1 + tally(lines(s2), line_comments(language), block_comments(language)).1,
        tally(lines(s1 + s2), line_comments(language), block_comments(language)).2 == tally(
            lines(s1),
            line_comments(language),
            block_comments(language),
        ).2 + tally(lines(s2), line_comments(language), block_comments(language)).2,
{
    let lcs = line_comments(language);
    let bcs = block_comments(language);
    let ls1 = lines(s1);
    lemma_lines_concat(s1, s2);
    lemma_pieces_within(s1, '\n');
    assert forall|k: int| 0 <= k < ls1.len() implies first_block(trim(#[trigger] ls1[k]), bcs) is None by {
        if bcs.len() > 0 {
            let t = trim(ls1[k]);
            assert(bcs[0].0 == seq!['/', '*']);
            assert(first_block(t, bcs.drop_first()) is None);
            if starts_with(t, seq!['/', '*']) {
                assert(t.subrange(0, 2) =~= seq!['/', '*']);
                assert(occurs_at(t, seq!['/', '*'], 0));
                lemma_contains_trim(ls1[k], seq!['/', '*']);
                assert(ls1[k] == pieces(s1, '\n')[k]);
                assert(contains(s1, seq!['/', '*']));
            }
        }
    }
    lemma_tally_closed(ls1, lcs, bcs);
    lemma_tally_concat(ls1, lines(s2), lcs, bcs);
}

proof fn lemma_no_opener(t: Seq<char>, bcs: Seq<(Seq<char>, Seq<char>)>)
    requires
        forall|i: int| 0 <= i < bcs.len() ==> !starts_with(t, (#[trigger] bcs[i]).0),
    ensures
        first_block(t, bcs) is None,
    decreases bcs.len(),
{
    if bcs.len() > 0 {
        assert(!starts_with(t, bcs[0].0));
        assert forall|i: int| 0 <= i < bcs.drop_first().len() implies !starts_with(
            t,
            (#[trigger] bcs.drop_first()[i]).0,
        ) by {
            assert(bcs.drop_first()[i] == bcs[i + 1]);
        }
        lemma_no_opener(t, bcs.drop_first());
    }
}


proof fn lemma_single_line(t: Seq<char>)
    requires
        !t.contains('\n'),
    ensures
        lines(t.push('\n')) == seq![t],
{
    assert(t.push('\n') =~= t + seq!['\n'] + Seq::<char>::empty());
    lemma_pieces_concat(t, Seq::<char>::empty(), '\n');
    lemma_pieces_single(t, '\n');
    assert(pieces(Seq::<char>::empty(), '\n') =~= seq![Seq::<char>::empty()]);
    assert(pieces(t.push('\n'), '\n') =~= seq![t, Seq::<char>::empty()]);
    assert(lines(t.push('\n')) =~= seq![t]);
}

/// A line whose trimmed text starts with one of the language's
/// line-comment prefixes is one comment line; a line of whitespace only is
/// one blank line.
pub proof fn law_comment_and_blank_line(t: Seq<char>, language: Language)
    requires
        !t.contains('\n'),
    ensures
        lines(t.push('\n')) == seq![t],
        trim(t).len() == 0 ==> tally(
            lines(t.push('\n')),
            line_comments(language),
            block_comments(language),
        ) == (0nat, 0nat, 1nat, None::<Seq<char>>),
        trim(t).len() > 0 && (exists|i: int|
            0 <= i < line_comments(language).len() && starts_with(
                trim(t),
                #[trigger] line_comments(language)[i],
            )) ==> tally(lines(t.push('\n')), line_comments(language), block_comments(language))
            == (0nat, 1nat, 0nat, None::<Seq<char>>),
{
    let lcs = line_comments(language);
    let bcs = block_comments(language);
    lemma_single_line(t);
    let ls = seq![t];
    assert(ls.drop_last() =~= Seq::<Seq<char>>::empty());
    assert(tally(ls.drop_last(), lcs, bcs) == (0nat, 0nat, 0nat, None::<Seq<char>>));
    assert(ls.last() == t);
}

/// A line whose trimmed text is not empty and starts with none of the
/// language's line-comment prefixes and block-comment openers is one line
/// of code: the comment test is a prefix test on the trimmed line, so text
/// such as `let x = 1; // one` counts as code.
pub proof fn law_code_line(t: Seq<char>, language: Language)
    requires
        !t.contains('\n'),
        trim(t).len() > 0,
        forall|i: int|
            0 <= i < line_comments(language).len() ==> !starts_with(
                trim(t),
                #[trigger] line_comments(language)[i],
            ),
        forall|i: int|
            0 <= i < block_comments(language).len() ==> !starts_with(
                trim(t),
                (#[trigger] block_comments(language)[i]).0,
            ),
    ensures
        lines(t.push('\n')) == seq![t],
        tally(lines(t.push('\n')), line_comments(language), block_comments(language)) == (
            1nat,
            0nat,
            0nat,
            None::<Seq<char>>,
        ),
{
    let lcs = line_comments(language);
    let bcs = block_comments(language);
    lemma_single_line(t);
    lemma_no_opener(trim(t), bcs);
    assert(!any_starts(trim(t), lcs));
    let ls = seq![t];
    assert(ls.drop_last() =~= Seq::<Seq<char>>::empty());
    assert(step(None, t, lcs, bcs) == (LineKind::Code, None::<Seq<char>>));
    assert(tally(ls.drop_last(), lcs, bcs) == (0nat, 0nat, 0nat, None::<Seq<char>>));
    assert(ls.last() == t);
    assert(tally(ls, lcs, bcs) == (1nat, 0nat, 0nat, None::<Seq<char>>));
}

fn any_prefix_starts(t: &[char], prefixes: &Vec<Vec<char>>) -> (res: bool)
    ensures
        res == any_starts(t@, prefixes.deep_view()),
{
    let mut i: usize = 0;
    while i < prefixes.len()
        invariant
            i <= prefixes@.len(),
            forall|k: int| 0 <= k < i ==> !starts_with(t@, prefixes.deep_view()[k]),
        decreases prefixes.len() - i,
    {
        proof {
            assert(prefixes.deep_view()[i as int] =~= prefixes@[i as int]@);
        }
        if chars_starts_with(t, &prefixes[i]) {
            return true;
        }
        i = i + 1;
    }
    false
}

fn find_block(t: &[char], blocks: &Vec<(Vec<char>, Vec<char>)>) -> (res: Option<Vec<char>>)
    ensures
        match res {
            Some(e) => first_block(t@, blocks.deep_view()) == Some(e@),
            None => first_block(t@, blocks.deep_view()) is None,
        },
{
    let mut i: usize = 0;
    proof {
        assert(blocks.deep_view().skip(0) =~= blocks.deep_view());
    }
    while i < blocks.len()
        invariant
            i <= blocks@.len(),
            first_block(t@, blocks.deep_view()) == first_block(
                t@,
                blocks.deep_view().skip(i as int),
            ),
        decreases blocks.len() - i,
    {
        let ghost rest = blocks.deep_view().skip(i as int);
        proof {
            assert(rest[0].0 =~= blocks@[i as int].0@);
            assert(rest[0].1 =~= blocks@[i as int].1@);
            assert(rest.drop_first() =~= blocks.deep_view().skip(i + 1));
        }
        if chars_starts_with(t, &blocks[i].0) {
            let e = crate::text::slice_copy(&blocks[i].1, 0, blocks[i].1.len());
            proof {
                assert(blocks@[i as int].1@.subrange(0, blocks@[i as int].1@.len() as int)
                    =~= blocks@[i as int].1@);
            }
            return Some(e);
        }
        i = i + 1;
    }
    proof {
        assert(blocks.deep_view().skip(i as int).len() == 0);
    }
    None
}

/// The executable form of `step`.
pub fn classify_line(open: Option<Vec<char>>, line: &[char], syntax: &CommentSyntax) -> (res: (
    LineKind,
    Option<Vec<char>>,
))
    ensures
        res.0 == step(open.deep_view(), line@, syntax.line_view(), syntax.block_view()).0,
        res.1.deep_view() == step(
            open.deep_view(),
            line@,
            syntax.line_view(),
            syntax.block_view(),
        ).1,
{
    let t = chars_trim(line);
    if t.len() == 0 {
        return (LineKind::Blank, open);
    }
    match open {
        Some(end) => {
            proof {
                assert(end.deep_view() =~= end@);
            }
            if chars_contains(&t, &end) {
                (LineKind::Comment, None)
            } else {
                (LineKind::Comment, Some(end))
            }
        },
        None => {
            if any_prefix_starts(&t, &syntax.line) {
                (LineKind::Comment, None)
            } else {
                match find_block(&t, &syntax.block) {
                    Some(end) => {
                        proof {
                            assert(end.deep_view() =~= end@);
                        }
                        if chars_contains(&t, &end) {
                            (LineKind::Comment, None)
                        } else {
                            (LineKind::Comment, Some(end))
                        }
                    },
                    None => (LineKind::Code, None),
                }
            }
        },
    }
}

/// Counts the lines of `source` as `(lines, code, comments, blanks)`.
///
/// Lines are split at line feeds (a final line feed adds no line); a line
/// whose trimmed text is empty is blank; inside an open block comment, or
/// starting with a line-comment prefix or a block-comment opener, it is a
/// comment; every other line is code.
pub fn count_lines(source: &str, language: Language) -> (res: (u64, u64, u64, u64))
    ensures
        res.0 == lines(source@).len(),
        res.1 == tally(lines(source@), line_comments(language), block_comments(language)).0,
        res.2 == tally(lines(source@), line_comments(language), block_comments(language)).1,
        res.3 == tally(lines(source@), line_comments(language), block_comments(language)).2,
        res.0 == res.1 + res.2 + res.3,
{
    let syntax = language.comment_syntax();
    let ghost lcs = line_comments(language);
    let ghost bcs = block_comments(language);
    let s = to_chars(source);
    let mut count: u64 = 0;
    let mut code: u64 = 0;
    let mut comments: u64 = 0;
    let mut blanks: u64 = 0;
    let mut open: Option<Vec<char>> = None;
    let mut cur: Vec<char> = Vec::new();
    let mut i: usize = 0;
    proof {
        assert(s@.take(0) =~= Seq::<char>::empty());
    }
    while i < s.len()
        invariant
            i <= s@.len(),
            s@ == source@,
            syntax.line_view() == lcs,
            syntax.block_view() == bcs,
            lcs == line_comments(language),
            bcs == block_comments(language),
            cur@ == pieces(s@.take(i as int), '\n').last(),
            count == pieces(s@.take(i as int), '\n').len() - 1,
            count <= i,
            ({
                let t = tally(pieces(s@.take(i as int), '\n').drop_last(), lcs, bcs);
                &&& code == t.0
                &&& comments == t.1
                &&& blanks == t.2
                &&& open.deep_view() == t.3
            }),
        decreases s.len() - i,
    {
        let ghost pre = s@.take(i as int);
        let ghost ps = pieces(pre, '\n');
        proof {
            lemma_pieces_nonempty(pre, '\n');
            lemma_pieces_nonempty(s@.take(i + 1), '\n');
            assert(s@.take(i + 1).drop_last() =~= pre);
            assert(s@.take(i + 1).last() == s@[i as int]);
        }
        if s[i] == '\n' {
            let (kind, next) = classify_line(open, &cur, &syntax);
            proof {
                lemma_tally_total(ps.drop_last(), lcs, bcs);
                let nps = ps.push(Seq::<char>::empty());
                assert(nps.drop_last() =~= ps);
                assert(ps.drop_last().push(ps.last()) =~= ps);
                assert(ps.drop_last().len() == count);
            }
            count = count + 1;
            match kind {
                LineKind::Code => {
                    code = code + 1;
                },
                LineKind::Comment => {
                    comments = comments + 1;
                },
                LineKind::Blank => {
                    blanks = blanks + 1;
                },
            }
            open = next;
            cur = Vec::new();
        } else {
            cur.push(s[i]);
            proof {
                let nps = ps.update(ps.len() - 1, ps.last().push(s@[i as int]));
                assert(nps.drop_last() =~= ps.drop_last());
            }
        }
        i = i + 1;
    }
    proof {
        assert(s@.take(s@.len() as int) =~= s@);
        lemma_pieces_nonempty(s@, '\n');
    }
    let ghost ps = pieces(s@, '\n');
    if cur.len() > 0 {
        let (kind, next) = classify_line(open, &cur, &syntax);
        proof {
            lemma_tally_total(ps.drop_last(), lcs, bcs);
            assert(ps.drop_last().push(ps.last()) =~= ps);
            assert(count < s@.len());
        }
        count = count + 1;
        match kind {
            LineKind::Code => {
                code = code + 1;
            },
            LineKind::Comment => {
                comments = comments + 1;
            },
            LineKind::Blank => {
                blanks = blanks + 1;
            },
        }
    }
    proof {
        lemma_tally_total(lines(source@), lcs, bcs);
    }
    (count, code, comments, blanks)
}

} // verus!
