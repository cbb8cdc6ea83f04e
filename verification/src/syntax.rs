//! Concrete syntax trees of source files, flattened into their nodes in
//! document order (pre-order), each with its depth below the root.
//!
//! The trees come from tree-sitter and the grammar crates of each language;
//! everything that reads them is verified code over the flat node list.

use vstd::prelude::*;

verus! {

#[verifier::external_type_specification]
#[verifier::external_body]
pub struct ExTree(tree_sitter::Tree);

/// A tree-sitter grammar.
#[derive(Debug, Clone, Copy, PartialEq, Eq, Structural)]
pub enum Grammar {
    Rust,
    Go,
    C,
    Cpp,
    Java,
    Bash,
    Python,
    TypeScript,
    Make,
    CMake,
}

/// One node of a syntax tree: its kind, the field it fills in its parent,
/// its depth below the root, its byte range and its text.
#[derive(Debug, Clone)]
pub struct SyntaxNode {
    pub kind: String,
    pub field: Option<String>,
    pub depth: u32,
    pub start: usize,
    pub end: usize,
    pub text: String,
}

/// The mathematical value of a `SyntaxNode`.
pub struct SyntaxNodeView {
    pub kind: Seq<char>,
    pub field: Option<Seq<char>>,
    pub depth: u32,
    pub start: usize,
    pub end: usize,
    pub text: Seq<char>,
}

impl View for SyntaxNode {
    type V = SyntaxNodeView;

    open spec fn view(&self) -> SyntaxNodeView {
        SyntaxNodeView {
            kind: self.kind@,
            field: self.field.deep_view(),
            depth: self.depth,
            start: self.start,
            end: self.end,
            text: self.text@,
        }
    }
}

/// The nodes, in pre-order, of the tree that tree-sitter builds for `source`
/// with `grammar`; `None` when it builds none.
pub uninterp spec fn syntax_of(source: Seq<char>, grammar: Grammar) -> Option<Seq<SyntaxNodeView>>;

/// A source text together with the tree that `parse_source` built for it.
/// Its fields are private and `parse_source` is the only place that builds
/// one, so its tree is always the parse of its source with its grammar.
pub struct ParsedSource {
    tree: tree_sitter::Tree,
    source: String,
    grammar: Grammar,
}

impl ParsedSource {
    pub closed spec fn source_view(&self) -> Seq<char> {
        self.source@
    }

    pub closed spec fn grammar_view(&self) -> Grammar {
        self.grammar
    }
}

/// Parses `source` with `tree_sitter::Parser` set to the grammar's language
/// (`set_language`, then `parse`); keeps the text and grammar beside the tree.
/// Claims only that a tree comes back exactly when `syntax_of` has one.
#[verifier::external_body]
fn parse_source(source: &str, grammar: Grammar) -> (res: Option<ParsedSource>)
    ensures
        res is Some <==> syntax_of(source@, grammar) is Some,
        res matches Some(p) ==> p.source_view() == source@ && p.grammar_view() == grammar,
{
    let language: tree_sitter::Language = match grammar {
        Grammar::Rust => tree_sitter_rust::LANGUAGE,
        Grammar::Go => tree_sitter_go::LANGUAGE,
        Grammar::C => tree_sitter_c::LANGUAGE,
        Grammar::Cpp => tree_sitter_cpp::LANGUAGE,
        Grammar::Java => tree_sitter_java::LANGUAGE,
        Grammar::Bash => tree_sitter_bash::LANGUAGE,
        Grammar::Python => tree_sitter_python::LANGUAGE,
        Grammar::TypeScript => tree_sitter_typescript::LANGUAGE_TYPESCRIPT,
        Grammar::Make => tree_sitter_make::LANGUAGE, Grammar::CMake => tree_sitter_cmake::LANGUAGE,
    }.into();
    let mut parser = tree_sitter::Parser::new();
    parser.set_language(&language).ok()?;
    let tree = parser.parse(source, None)?;
    Some(ParsedSource { tree, source: source.to_string(), grammar })
}

/// Lists the nodes of the parsed tree in pre-order with a
/// `tree_sitter::TreeCursor` (`goto_descendant` for each index below
/// `descendant_count`), reading each node's `kind`, the cursor's
/// `field_name` and `depth`, `start_byte`, `end_byte` and `utf8_text`
/// (empty when not UTF-8). Claims that this list is `syntax_of` of the
/// text and grammar the tree was parsed from.
#[verifier::external_body]
fn tree_nodes(parsed: &ParsedSource) -> (res: Vec<SyntaxNode>)
    ensures
        syntax_of(parsed.source_view(), parsed.grammar_view()) == Some(
            res@.map_values(|n: SyntaxNode| n@),
        ),
{
    let mut cursor = parsed.tree.walk();
    let count = parsed.tree.root_node().descendant_count();
    (0..count).map(|i| {
        cursor.goto_descendant(i);
        let node = cursor.node();
        SyntaxNode {
            kind: node.kind().to_string(),
            field: cursor.field_name().map(String::from),
            depth: cursor.depth(),
            start: node.start_byte(), end: node.end_byte(),
            text: node.utf8_text(parsed.source.as_bytes()).unwrap_or("").to_string(),
        }
    }).collect()
}

/// The elements (nodes and tokens), in pre-order, of the tree that
/// rust-analyzer's parser builds for the Rust text `source`.
pub uninterp spec fn rust_syntax_of(source: Seq<char>) -> Seq<SyntaxNodeView>;

/// Parses `source` with `ra_ap_syntax::SourceFile::parse` (current
/// edition; the parser always builds a tree) and lists its elements,
/// tokens included, in pre-order (`descendants_with_tokens`): each one's
/// `SyntaxKind` name, no field, the number of its ancestors, its text range
/// and the text there. Claims that this list is `rust_syntax_of(source)`.
#[verifier::external_body]
pub(crate) fn rust_syntax_tree(source: &str) -> (res: Vec<SyntaxNode>)
    ensures
        rust_syntax_of(source@) == res@.map_values(|n: SyntaxNode| n@),
{
    let file = ra_ap_syntax::SourceFile::parse(source, ra_ap_syntax::Edition::CURRENT).tree();
    ra_ap_syntax::AstNode::syntax(&file).descendants_with_tokens().map(|el| {
        let range = el.text_range();
        SyntaxNode {
            kind: format!("{:?}", el.kind()),
            field: None,
            depth: el.parent().map_or(0, |p| p.ancestors().count()) as u32,
            start: range.start().into(), end: range.end().into(),
            text: source[range].to_string(),
        }
    }).collect()
}

/// The views of a list of nodes.
pub open spec fn nodes_view(v: Seq<SyntaxNode>) -> Seq<SyntaxNodeView> {
    v.map_values(|n: SyntaxNode| n@)
}

/// The first index from `k` on whose depth is at most `d`, or the length.
pub open spec fn end_scan(ns: Seq<SyntaxNodeView>, d: u32, k: int) -> int
    decreases ns.len() - k,
{
    if k >= ns.len() || k < 0 || ns[k].depth <= d {
        k
    } else {
        end_scan(ns, d, k + 1)
    }
}

/// One past the last node of the subtree of node `i`.
pub open spec fn subtree_end(ns: Seq<SyntaxNodeView>, i: int) -> int {
    end_scan(ns, ns[i].depth, i + 1)
}

pub proof fn lemma_end_scan(ns: Seq<SyntaxNodeView>, d: u32, k: int)
    requires
        0 <= k,
    ensures
        k <= end_scan(ns, d, k),
        k <= ns.len() ==> end_scan(ns, d, k) <= ns.len(),
        forall|j: int| k <= j < end_scan(ns, d, k) ==> ns[j].depth > d,
    decreases ns.len() - k,
{
    if !(k >= ns.len() || ns[k].depth <= d) {
        lemma_end_scan(ns, d, k + 1);
    }
}

/// The nodes from `j` on, stepping over whole subtrees, before `end`: the
/// children of a node when `j` is its first child and `end` its subtree end.
pub open spec fn siblings(ns: Seq<SyntaxNodeView>, j: int, end: int) -> Seq<int>
    decreases ns.len() - j,
    via siblings_decreases
{
    if j < 0 || j >= end || j >= ns.len() {
        Seq::empty()
    } else {
        seq![j] + siblings(ns, subtree_end(ns, j), end)
    }
}

#[via_fn]
proof fn siblings_decreases(ns: Seq<SyntaxNodeView>, j: int, end: int) {
    if !(j < 0 || j >= end || j >= ns.len()) {
        lemma_end_scan(ns, ns[j].depth, j + 1);
    }
}


/// The children of node `i`, in order.
pub open spec fn children(ns: Seq<SyntaxNodeView>, i: int) -> Seq<int> {
    siblings(ns, i + 1, subtree_end(ns, i))
}

pub proof fn lemma_siblings(ns: Seq<SyntaxNodeView>, j: int, end: int)
    requires
        0 <= j,
    ensures
        forall|k: int|
            0 <= k < siblings(ns, j, end).len() ==> j <= #[trigger] siblings(ns, j, end)[k]
                < end && siblings(ns, j, end)[k] < ns.len(),
    decreases ns.len() - j,
{
    if !(j >= end || j >= ns.len()) {
        lemma_end_scan(ns, ns[j].depth, j + 1);
        assert(subtree_end(ns, j) > j);
        lemma_siblings(ns, subtree_end(ns, j), end);
        let r = siblings(ns, subtree_end(ns, j), end);
        assert forall|k: int| 0 <= k < siblings(ns, j, end).len() implies j <= #[trigger] siblings(
            ns,
            j,
            end,
        )[k] < end && siblings(ns, j, end)[k] < ns.len() by {
            if k > 0 {
                assert(siblings(ns, j, end)[k] == r[k - 1]);
            }
        }
    }
}

/// The children of `i` lie after it, inside its subtree.
pub proof fn lemma_children(ns: Seq<SyntaxNodeView>, i: int)
    requires
        0 <= i < ns.len(),
    ensures
        forall|k: int|
            0 <= k < children(ns, i).len() ==> i < #[trigger] children(ns, i)[k] < subtree_end(
                ns,
                i,
            ) && children(ns, i)[k] < ns.len(),
        subtree_end(ns, i) <= ns.len(),
{
    lemma_end_scan(ns, ns[i].depth, i + 1);
    lemma_siblings(ns, i + 1, subtree_end(ns, i));
}

/// One past the last node of the subtree of node `i`.
pub fn subtree_end_exec(nodes: &Vec<SyntaxNode>, i: usize) -> (res: usize)
    requires
        i < nodes@.len(),
    ensures
        res == subtree_end(nodes_view(nodes@), i as int),
        i < res <= nodes@.len(),
{
    let d = nodes[i].depth;
    let n = nodes.len();
    let mut k: usize = i + 1;
    proof {
        lemma_end_scan(nodes_view(nodes@), d, i + 1);
    }
    while k < nodes.len() && nodes[k].depth > d
        invariant
            i < k <= nodes@.len(),
            d == nodes@[i as int].depth,
            end_scan(nodes_view(nodes@), d, i + 1) == end_scan(nodes_view(nodes@), d, k as int),
        decreases nodes.len() - k,
    {
        k = k + 1;
    }
    k
}

/// The children of node `i`, in order.
pub fn children_exec(nodes: &Vec<SyntaxNode>, i: usize) -> (res: Vec<usize>)
    requires
        i < nodes@.len(),
    ensures
        res@.map_values(|k: usize| k as int) == children(nodes_view(nodes@), i as int),
        forall|k: int| 0 <= k < res@.len() ==> i < #[trigger] res@[k] < nodes@.len(),
{
    let ghost ns = nodes_view(nodes@);
    let end = subtree_end_exec(nodes, i);
    let mut out: Vec<usize> = Vec::new();
    let mut j: usize = i + 1;
    proof {
        assert(out@.map_values(|k: usize| k as int) =~= Seq::<int>::empty());
    }
    while j < end
        invariant
            i < j <= nodes@.len(),
            end <= nodes@.len(),
            end == subtree_end(ns, i as int),
            ns == nodes_view(nodes@),
            out@.map_values(|k: usize| k as int) + siblings(ns, j as int, end as int) == children(
                ns,
                i as int,
            ),
            forall|k: int| 0 <= k < out@.len() ==> i < #[trigger] out@[k] < nodes@.len(),
        decreases nodes@.len() - j,
    {
        let next = subtree_end_exec(nodes, j);
        let ghost before = out@.map_values(|k: usize| k as int);
        out.push(j);
        proof {
            assert(out@.map_values(|k: usize| k as int) =~= before.push(j as int));
            assert(siblings(ns, j as int, end as int) == seq![j as int] + siblings(
                ns,
                next as int,
                end as int,
            ));
            assert(before.push(j as int) + siblings(ns, next as int, end as int) =~= before + (
            seq![j as int] + siblings(ns, next as int, end as int)));
        }
        j = next;
    }
    proof {
        assert(siblings(ns, j as int, end as int) =~= Seq::<int>::empty());
        assert(out@.map_values(|k: usize| k as int) + Seq::<int>::empty() =~= out@.map_values(
            |k: usize| k as int,
        ));
    }
    out
}

/// The nodes of the syntax tree of `source` under `grammar`, in pre-order.
pub fn syntax_nodes(source: &str, grammar: Grammar) -> (res: Option<Vec<SyntaxNode>>)
    ensures
        match res {
            Some(v) => syntax_of(source@, grammar) == Some(v@.map_values(|n: SyntaxNode| n@)),
            None => syntax_of(source@, grammar) is None,
        },
{
    match parse_source(source, grammar) {
        Some(p) => Some(tree_nodes(&p)),
        None => None,
    }
}

} // verus!
