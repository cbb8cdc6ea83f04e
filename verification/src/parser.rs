//! Imports written in source files, read from their syntax trees.
//!
//! Each language module says which nodes hold imports; `extract_imports`
//! drops empty targets, sorts what they found by target and position, and
//! drops repeated entries.

pub mod cpp;
pub mod go;
pub mod java;
pub mod bash;
pub mod make;
pub mod cmake;
pub mod typescript;
pub mod python;
pub mod rust;
pub mod tidy;

use vstd::prelude::*;
use crate::lang::Language;
use crate::syntax::{
    lemma_end_scan, nodes_view, subtree_end, subtree_end_exec, syntax_nodes, syntax_of, Grammar,
    SyntaxNode, SyntaxNodeView,
};
use crate::parser::tidy::{tidy, tidy_imports};
use crate::text::{chars_eq, chars_trim, to_chars, trim, trim_matches};

verus! {

/// How an import names its target.
#[derive(Debug, Clone, Copy, PartialEq, Eq, Structural)]
pub enum RawImportKind {
    Module,
    Symbol,
    SideEffect,
    Dynamic,
    ReExport,
    Include,
}

/// An import as written: its target, kind, imported names and the byte
/// range of the node it was read from.
#[derive(Debug, Clone, PartialEq, Eq)]
pub struct RawImport {
    pub target: String,
    pub kind: RawImportKind,
    pub symbols: Vec<String>,
    pub byte_start: usize,
    pub byte_end: usize,
}

/// The mathematical value of a `RawImport`.
pub struct RawImportView {
    pub target: Seq<char>,
    pub kind: RawImportKind,
    pub symbols: Seq<Seq<char>>,
    pub byte_start: usize,
    pub byte_end: usize,
}

impl View for RawImport {
    type V = RawImportView;

    open spec fn view(&self) -> RawImportView {
        RawImportView {
            target: self.target@,
            kind: self.kind,
            symbols: self.symbols.deep_view(),
            byte_start: self.byte_start,
            byte_end: self.byte_end,
        }
    }
}

/// The views of a list of imports.
pub open spec fn imports_view(v: Seq<RawImport>) -> Seq<RawImportView> {
    v.map_values(|x: RawImport| x@)
}

/// An import without names, read from node `n`.
pub open spec fn item(target: Seq<char>, kind: RawImportKind, n: SyntaxNodeView) -> RawImportView {
    RawImportView {
        target,
        kind,
        symbols: Seq::empty(),
        byte_start: n.start,
        byte_end: n.end,
    }
}

impl RawImport {
    /// An import of `target` without names, read from `node`.
    pub fn new(target: String, kind: RawImportKind, node: &SyntaxNode) -> (res: RawImport)
        ensures
            res@ == item(target@, kind, node@),
    {
        let symbols: Vec<String> = Vec::new();
        let res = RawImport { target, kind, symbols, byte_start: node.start, byte_end: node.end };
        proof {
            assert(res.symbols.deep_view() =~= Seq::<Seq<char>>::empty());
        }
        res
    }

    /// The same import with `symbols` as its names.
    pub fn with_symbols(self, symbols: Vec<String>) -> (res: RawImport)
        ensures
            res@ == (RawImportView { symbols: symbols.deep_view(), ..self@ }),
    {
        let mut s = self;
        s.symbols = symbols;
        s
    }
}

/// `unquote`: trimmed, then without surrounding `"`, `'` and backquotes.
pub open spec fn unquote_spec(s: Seq<char>) -> Seq<char> {
    trim_matches(trim_matches(trim_matches(trim(s), '"'), '\''), '`')
}

/// Trims a string and strips surrounding quotes, then single quotes, then backquotes.
pub fn unquote(value: &str) -> (res: String)
    ensures
        res@ == unquote_spec(value@),
{
    let v = to_chars(value);
    let t = chars_trim(&v);
    let a = crate::text::chars_trim_matches(&t, '"');
    let b = crate::text::chars_trim_matches(&a, '\'');
    let c = crate::text::chars_trim_matches(&b, '`');
    crate::text::from_chars(&c)
}

/// Whether a node is of kind `k`.
pub fn kind_is(node: &SyntaxNode, k: &str) -> (res: bool)
    ensures
        res == (node.kind@ == k@),
{
    let a = to_chars(node.kind.as_str());
    let b = to_chars(k);
    chars_eq(&a, &b)
}

/// Whether a node fills the field `f` of its parent.
pub fn field_is(node: &SyntaxNode, f: &str) -> (res: bool)
    ensures
        res == (node.field.deep_view() == Some(f@)),
{
    match &node.field {
        Some(x) => {
            let a = to_chars(x.as_str());
            let b = to_chars(f);
            chars_eq(&a, &b)
        },
        None => false,
    }
}

/// Appends the imports of `more` to `out`.
pub fn append_imports(out: &mut Vec<RawImport>, more: Vec<RawImport>)
    ensures
        imports_view(final(out)@) == imports_view(old(out)@) + imports_view(more@),
{
    let mut more = more;
    let ghost m = more@;
    let ghost o = out@;
    out.append(&mut more);
    proof {
        assert(out@ =~= o + m);
        assert(imports_view(out@) =~= imports_view(o) + imports_view(m));
    }
}

/// What node `i` of a syntax tree holds for the extractor of `lang`.
pub open spec fn node_imports(ns: Seq<SyntaxNodeView>, lang: Language, i: int) -> Seq<RawImportView> {
    match lang {
        Language::C | Language::Cpp => cpp::imports_of(ns, i),
        Language::Go => go::imports_of(ns, i),
        Language::Java => java::imports_of(ns, i),
        Language::Bash => bash::imports_of(ns, i),
        Language::Make => make::imports_of(ns, i),
        Language::CMake => cmake::imports_of(ns, i),
        Language::TypeScript | Language::JavaScript => typescript::imports_of(ns, i),
        Language::Python => python::imports_of(ns, i),
        Language::Rust => rust::imports_of(ns, i),
        Language::Unknown => Seq::empty(),
    }
}

/// The imports that the extractor of `lang` reads from the first `n`
/// nodes, in node order.
pub open spec fn raw_imports(ns: Seq<SyntaxNodeView>, lang: Language, n: int) -> Seq<RawImportView>
    decreases n,
{
    if n <= 0 {
        Seq::empty()
    } else {
        raw_imports(ns, lang, n - 1) + node_imports(ns, lang, n - 1)
    }
}

/// Two extractors that agree on every node agree on every prefix.
pub proof fn lemma_raw_imports_agree(ns: Seq<SyntaxNodeView>, a: Language, b: Language, n: int)
    requires
        forall|i: int| 0 <= i < n ==> node_imports(ns, a, i) == node_imports(ns, b, i),
    ensures
        raw_imports(ns, a, n) == raw_imports(ns, b, n),
    decreases n,
{
    if n > 0 {
        lemma_raw_imports_agree(ns, a, b, n - 1);
    }
}

/// The node kinds a scan stops at.
#[derive(Debug, Clone, Copy, PartialEq, Eq, Structural)]
pub enum ScanTarget {
    /// String literals and string fragments.
    Literal,
    /// Dotted names.
    DottedName,
}

/// Whether a node of kind `kind` is what `t` looks for.
pub open spec fn scan_hit(t: ScanTarget, kind: Seq<char>) -> bool {
    match t {
        ScanTarget::Literal => kind == "string_fragment"@ || kind == "interpreted_string_literal"@
            || kind == "raw_string_literal"@ || kind == "string"@,
        ScanTarget::DottedName => kind == "dotted_name"@,
    }
}

/// The nodes from `j` on, before `end`, that `t` looks for, in node order;
/// what lies below a hit is not looked at.
pub open spec fn scan(ns: Seq<SyntaxNodeView>, t: ScanTarget, j: int, end: int) -> Seq<int>
    decreases ns.len() - j,
    via scan_decreases
{
    if j < 0 || j >= end || j >= ns.len() {
        Seq::empty()
    } else if scan_hit(t, ns[j].kind) {
        seq![j] + scan(ns, t, subtree_end(ns, j), end)
    } else {
        scan(ns, t, j + 1, end)
    }
}

#[via_fn]
proof fn scan_decreases(ns: Seq<SyntaxNodeView>, t: ScanTarget, j: int, end: int) {
    if !(j < 0 || j >= end || j >= ns.len()) {
        lemma_end_scan(ns, ns[j].depth, j + 1);
    }
}

/// Whether `node` is what `t` looks for.
pub fn scan_hit_exec(node: &SyntaxNode, t: ScanTarget) -> (res: bool)
    ensures
        res == scan_hit(t, node@.kind),
{
    match t {
        ScanTarget::Literal => kind_is(node, "string_fragment") || kind_is(
            node,
            "interpreted_string_literal",
        ) || kind_is(node, "raw_string_literal") || kind_is(node, "string"),
        ScanTarget::DottedName => kind_is(node, "dotted_name"),
    }
}

/// The nodes from `start` on, before `end`, that `t` looks for.
pub fn scan_exec(nodes: &Vec<SyntaxNode>, t: ScanTarget, start: usize, end: usize) -> (res: Vec<usize>)
    requires
        start <= nodes@.len(),
    ensures
        res@.map_values(|k: usize| k as int) == scan(nodes_view(nodes@), t, start as int, end as int),
        forall|k: int| 0 <= k < res@.len() ==> #[trigger] res@[k] < nodes@.len(),
{
    let ghost ns = nodes_view(nodes@);
    let mut out: Vec<usize> = Vec::new();
    let mut j: usize = start;
    proof {
        assert(out@.map_values(|k: usize| k as int) =~= Seq::<int>::empty());
    }
    while j < end && j < nodes.len()
        invariant
            j <= nodes@.len(),
            ns == nodes_view(nodes@),
            out@.map_values(|k: usize| k as int) + scan(ns, t, j as int, end as int) == scan(
                ns,
                t,
                start as int,
                end as int,
            ),
            forall|k: int| 0 <= k < out@.len() ==> #[trigger] out@[k] < nodes@.len(),
        decreases nodes@.len() - j,
    {
        let ghost before = out@.map_values(|k: usize| k as int);
        if scan_hit_exec(&nodes[j], t) {
            let next = subtree_end_exec(nodes, j);
            out.push(j);
            proof {
                assert(out@.map_values(|k: usize| k as int) =~= before.push(j as int));
                assert(before.push(j as int) + scan(ns, t, next as int, end as int) =~= before + (
                seq![j as int] + scan(ns, t, next as int, end as int)));
            }
            j = next;
        } else {
            j = j + 1;
        }
    }
    proof {
        assert(scan(ns, t, j as int, end as int) =~= Seq::<int>::empty());
        assert(out@.map_values(|k: usize| k as int) + Seq::<int>::empty() =~= out@.map_values(
            |k: usize| k as int,
        ));
    }
    out
}

/// The import that a string node stands for: a fragment as written, a
/// literal without its quotes.
pub open spec fn literal_item(n: SyntaxNodeView, kind: RawImportKind) -> RawImportView {
    item(
        if n.kind == "string_fragment"@ {
            n.text
        } else {
            unquote_spec(n.text)
        },
        kind,
        n,
    )
}

/// The imports that the string nodes `ms` stand for, in order.
pub open spec fn literal_items(ns: Seq<SyntaxNodeView>, ms: Seq<int>, kind: RawImportKind) -> Seq<
    RawImportView,
> {
    ms.map_values(|m: int| literal_item(ns[m], kind))
}

/// Every string literal below node `i` (and `i` itself), as imports of `kind`.
pub fn literal_imports(nodes: &Vec<SyntaxNode>, i: usize, kind: RawImportKind) -> (res: Vec<
    RawImport,
>)
    requires
        i < nodes@.len(),
    ensures
        imports_view(res@) == literal_items(
            nodes_view(nodes@),
            scan(nodes_view(nodes@), ScanTarget::Literal, i as int, subtree_end(nodes_view(nodes@), i as int)),
            kind,
        ),
{
    let ghost ns = nodes_view(nodes@);
    let end = subtree_end_exec(nodes, i);
    let ms = scan_exec(nodes, ScanTarget::Literal, i, end);
    let ghost mv = ms@.map_values(|k: usize| k as int);
    let mut out: Vec<RawImport> = Vec::new();
    let mut k: usize = 0;
    while k < ms.len()
        invariant
            k <= ms@.len(),
            ns == nodes_view(nodes@),
            mv == ms@.map_values(|k: usize| k as int),
            forall|q: int| 0 <= q < ms@.len() ==> #[trigger] ms@[q] < nodes@.len(),
            imports_view(out@) == literal_items(ns, mv.take(k as int), kind),
        decreases ms.len() - k,
    {
        let node = &nodes[ms[k]];
        let target = if kind_is(node, "string_fragment") {
            node.text.clone()
        } else {
            unquote(node.text.as_str())
        };
        let imp = RawImport::new(target, kind, node);
        let ghost before = imports_view(out@);
        out.push(imp);
        proof {
            assert(ns[mv[k as int]] == node@);
            assert(imports_view(out@) =~= before.push(imp@));
            assert(literal_items(ns, mv.take(k + 1), kind) =~= literal_items(
                ns,
                mv.take(k as int),
                kind,
            ).push(literal_item(ns[mv[k as int]], kind)));
        }
        k = k + 1;
    }
    proof {
        assert(mv.take(ms@.len() as int) =~= mv);
    }
    out
}

/// The first node from `j` on, before `end`, stepping over subtrees, that
/// fills field `f`.
pub open spec fn field_child(ns: Seq<SyntaxNodeView>, j: int, end: int, f: Seq<char>) -> Option<int>
    decreases ns.len() - j,
    via field_child_decreases
{
    if j < 0 || j >= end || j >= ns.len() {
        None
    } else if ns[j].field == Some(f) {
        Some(j)
    } else {
        field_child(ns, subtree_end(ns, j), end, f)
    }
}

#[via_fn]
proof fn field_child_decreases(ns: Seq<SyntaxNodeView>, j: int, end: int, f: Seq<char>) {
    if !(j < 0 || j >= end || j >= ns.len()) {
        lemma_end_scan(ns, ns[j].depth, j + 1);
    }
}

/// The first node from `j` on, before `end`, stepping over subtrees, that
/// fills field `f`.
pub fn field_child_exec(nodes: &Vec<SyntaxNode>, j: usize, end: usize, f: &str) -> (res: Option<usize>)
    requires
        j <= nodes@.len(),
    ensures
        match res {
            Some(k) => field_child(nodes_view(nodes@), j as int, end as int, f@) == Some(k as int)
                && j <= k < nodes@.len(),
            None => field_child(nodes_view(nodes@), j as int, end as int, f@) is None,
        },
    decreases nodes@.len() - j,
{
    if j >= end || j >= nodes.len() {
        return None;
    }
    if field_is(&nodes[j], f) {
        Some(j)
    } else {
        let next = subtree_end_exec(nodes, j);
        field_child_exec(nodes, next, end, f)
    }
}

/// The first node from `j` on, before `end`, stepping over subtrees, that
/// is of kind `k`.
pub open spec fn kind_child(ns: Seq<SyntaxNodeView>, j: int, end: int, k: Seq<char>) -> Option<int>
    decreases ns.len() - j,
    via kind_child_decreases
{
    if j < 0 || j >= end || j >= ns.len() {
        None
    } else if ns[j].kind == k {
        Some(j)
    } else {
        kind_child(ns, subtree_end(ns, j), end, k)
    }
}

/// What `kind_child` finds lies from `j` on, inside the tree.
pub proof fn lemma_kind_child(ns: Seq<SyntaxNodeView>, j: int, end: int, k: Seq<char>)
    ensures
        kind_child(ns, j, end, k) matches Some(c) ==> j <= c < ns.len() && c < end,
    decreases ns.len() - j,
{
    if !(j < 0 || j >= end || j >= ns.len()) && ns[j].kind != k {
        lemma_end_scan(ns, ns[j].depth, j + 1);
        lemma_kind_child(ns, subtree_end(ns, j), end, k);
    }
}

#[via_fn]
proof fn kind_child_decreases(ns: Seq<SyntaxNodeView>, j: int, end: int, k: Seq<char>) {
    if !(j < 0 || j >= end || j >= ns.len()) {
        lemma_end_scan(ns, ns[j].depth, j + 1);
    }
}

/// The first node from `j` on, before `end`, stepping over subtrees, that
/// is of kind `k`.
pub fn kind_child_exec(nodes: &Vec<SyntaxNode>, j: usize, end: usize, k: &str) -> (res: Option<usize>)
    requires
        j <= nodes@.len(),
    ensures
        match res {
            Some(c) => kind_child(nodes_view(nodes@), j as int, end as int, k@) == Some(c as int)
                && j <= c < nodes@.len(),
            None => kind_child(nodes_view(nodes@), j as int, end as int, k@) is None,
        },
    decreases nodes@.len() - j,
{
    if j >= end || j >= nodes.len() {
        return None;
    }
    if kind_is(&nodes[j], k) {
        Some(j)
    } else {
        let next = subtree_end_exec(nodes, j);
        kind_child_exec(nodes, next, end, k)
    }
}

/// The grammar that parses a language, if it has one.
pub open spec fn grammar_of(lang: Language) -> Option<Grammar> {
    match lang {
        Language::Rust => Some(Grammar::Rust),
        Language::TypeScript | Language::JavaScript => Some(Grammar::TypeScript),
        Language::Python => Some(Grammar::Python),
        Language::Go => Some(Grammar::Go),
        Language::C => Some(Grammar::C),
        Language::Cpp => Some(Grammar::Cpp),
        Language::Java => Some(Grammar::Java),
        Language::Bash => Some(Grammar::Bash),
        Language::Make => Some(Grammar::Make),
        Language::CMake => Some(Grammar::CMake),
        Language::Unknown => None,
    }
}

/// The grammar that parses a language, if it has one.
pub fn grammar_for(lang: Language) -> (res: Option<Grammar>)
    ensures
        res == grammar_of(lang),
{
    match lang {
        Language::Rust => Some(Grammar::Rust),
        Language::TypeScript | Language::JavaScript => Some(Grammar::TypeScript),
        Language::Python => Some(Grammar::Python),
        Language::Go => Some(Grammar::Go),
        Language::C => Some(Grammar::C),
        Language::Cpp => Some(Grammar::Cpp),
        Language::Java => Some(Grammar::Java),
        Language::Bash => Some(Grammar::Bash),
        Language::Make => Some(Grammar::Make),
        Language::CMake => Some(Grammar::CMake),
        Language::Unknown => None,
    }
}

/// The imports reported for the syntax tree `ns` of a file in `lang`.
pub open spec fn imports_of_tree(ns: Seq<SyntaxNodeView>, lang: Language) -> Seq<RawImportView> {
    tidy_imports(raw_imports(ns, lang, ns.len() as int))
}

/// The imports reported for `source` written in `lang`: none for a
/// language without a grammar or a text that does not parse.
pub open spec fn imports_in(source: Seq<char>, lang: Language) -> Seq<RawImportView> {
    match grammar_of(lang) {
        Some(g) => match syntax_of(source, g) {
            Some(ns) => imports_of_tree(ns, lang),
            None => Seq::empty(),
        },
        None => Seq::empty(),
    }
}

/// The imports of a file in `language` whose syntax tree has the nodes
/// `nodes`, in pre-order.
pub fn extract_from_nodes(nodes: &Vec<SyntaxNode>, language: Language) -> (res: Vec<RawImport>)
    ensures
        imports_view(res@) == imports_of_tree(nodes_view(nodes@), language),
{
    let ghost ns = nodes_view(nodes@);
    let raw = match language {
        Language::Rust => rust::extract(nodes),
        Language::TypeScript => typescript::extract(nodes),
        Language::JavaScript => {
            let r = typescript::extract(nodes);
            proof {
                lemma_raw_imports_agree(ns, Language::TypeScript, Language::JavaScript, ns.len() as int);
            }
            r
        },
        Language::Python => python::extract(nodes),
        Language::Go => go::extract(nodes),
        Language::C => cpp::extract(nodes),
        Language::Cpp => {
            let r = cpp::extract(nodes);
            proof {
                lemma_raw_imports_agree(ns, Language::C, Language::Cpp, ns.len() as int);
            }
            r
        },
        Language::Java => java::extract(nodes),
        Language::Bash => bash::extract(nodes),
        Language::Make => make::extract(nodes),
        Language::CMake => cmake::extract(nodes),
        Language::Unknown => {
            let r: Vec<RawImport> = Vec::new();
            proof {
                assert(imports_view(r@) =~= raw_imports(ns, Language::Unknown, ns.len() as int)) by {
                    lemma_raw_unknown(ns, ns.len() as int);
                }
            }
            r
        },
    };
    tidy(&raw)
}

proof fn lemma_raw_unknown(ns: Seq<SyntaxNodeView>, n: int)
    ensures
        raw_imports(ns, Language::Unknown, n) == Seq::<RawImportView>::empty(),
    decreases n,
{
    if n > 0 {
        lemma_raw_unknown(ns, n - 1);
        assert(raw_imports(ns, Language::Unknown, n - 1) + Seq::<RawImportView>::empty() =~= Seq::<
            RawImportView,
        >::empty());
    }
}

/// The imports written in `source`, a file in `language`: read from its
/// syntax tree, without empty targets, sorted by target, then start and end
/// of the node they were read from, without repeated neighbours.
pub fn extract_imports(source: &str, language: Language) -> (res: Vec<RawImport>)
    ensures
        imports_view(res@) == imports_in(source@, language),
{
    let grammar = match grammar_for(language) {
        Some(g) => g,
        None => {
            let r: Vec<RawImport> = Vec::new();
            proof {
                assert(imports_view(r@) =~= Seq::<RawImportView>::empty());
            }
            return r;
        },
    };
    match syntax_nodes(source, grammar) {
        Some(nodes) => extract_from_nodes(&nodes, language),
        None => {
            let r: Vec<RawImport> = Vec::new();
            proof {
                assert(imports_view(r@) =~= Seq::<RawImportView>::empty());
            }
            r
        },
    }
}

/// The kinds of import that the extractor of `lang` reports: includes for
/// C, C++, shell, Make and CMake files; modules for Go and Java; modules
/// and names for Rust and Python; static, side-effect, dynamic and
/// re-exporting imports for TypeScript and JavaScript.
pub open spec fn reports_kind(lang: Language, kind: RawImportKind) -> bool {
    match lang {
        Language::C | Language::Cpp | Language::Bash | Language::Make | Language::CMake => kind
            == RawImportKind::Include,
        Language::Go | Language::Java => kind == RawImportKind::Module,
        Language::Rust | Language::Python => kind == RawImportKind::Module || kind
            == RawImportKind::Symbol,
        Language::TypeScript | Language::JavaScript => kind == RawImportKind::Module || kind
            == RawImportKind::SideEffect || kind == RawImportKind::Dynamic || kind
            == RawImportKind::ReExport,
        Language::Unknown => false,
    }
}

/// Whether every import of `s` is of a kind that `lang` reports, and only
/// Python's names-importing statements carry names.
pub open spec fn kinds_fit(lang: Language, s: Seq<RawImportView>) -> bool {
    forall|j: int|
        0 <= j < s.len() ==> reports_kind(lang, (#[trigger] s[j]).kind) && (s[j].symbols.len() > 0
            ==> lang == Language::Python && s[j].kind == RawImportKind::Symbol)
}

proof fn lemma_kinds_concat(lang: Language, a: Seq<RawImportView>, b: Seq<RawImportView>)
    requires
        kinds_fit(lang, a),
        kinds_fit(lang, b),
    ensures
        kinds_fit(lang, a + b),
{
    assert forall|j: int| 0 <= j < (a + b).len() implies reports_kind(lang, (#[trigger] (a + b)[j]).kind)
        && ((a + b)[j].symbols.len() > 0 ==> lang == Language::Python && (a + b)[j].kind
        == RawImportKind::Symbol) by {
        if j < a.len() {
            assert((a + b)[j] == a[j]);
        } else {
            assert((a + b)[j] == b[j - a.len()]);
        }
    }
}

proof fn lemma_cpp_kinds(ns: Seq<SyntaxNodeView>, cs: Seq<int>, lang: Language)
    requires
        lang == Language::C || lang == Language::Cpp,
    ensures
        kinds_fit(lang, cpp::include_items(ns, cs)),
    decreases cs.len(),
{
    if cs.len() > 0 {
        lemma_cpp_kinds(ns, cs.drop_last(), lang);
    }
}

proof fn lemma_java_kinds(ns: Seq<SyntaxNodeView>, cs: Seq<int>)
    ensures
        kinds_fit(Language::Java, java::name_items(ns, cs)),
    decreases cs.len(),
{
    if cs.len() > 0 {
        lemma_java_kinds(ns, cs.drop_last());
    }
}

proof fn lemma_bash_kinds(ns: Seq<SyntaxNodeView>, cs: Seq<int>, k: int, on: bool)
    ensures
        kinds_fit(Language::Bash, bash::source_items(ns, cs, k, on)),
    decreases cs.len() - k,
{
    if 0 <= k < cs.len() {
        let c = ns[cs[k]];
        if c.kind == "command_name"@ {
            lemma_bash_kinds(ns, cs, k + 1, on || bash::is_source_name(crate::text::trim(c.text)));
        } else if !on {
            lemma_bash_kinds(ns, cs, k + 1, on);
        }
    }
}

proof fn lemma_make_kinds(ns: Seq<SyntaxNodeView>, j: int, end: int)
    ensures
        kinds_fit(Language::Make, make::word_items(ns, j, end)),
    decreases end - j,
{
    if !(j < 0 || j >= end || j >= ns.len()) {
        lemma_make_kinds(ns, j + 1, end);
        let n = ns[j];
        let rest = make::word_items(ns, j + 1, end);
        if (n.kind == "word"@ || n.kind == "string"@) && !make::is_directive_word(make::word_value(n.text)) {
            lemma_kinds_concat(
                Language::Make,
                seq![item(make::word_value(n.text), RawImportKind::Include, n)],
                rest,
            );
        }
    }
}

proof fn lemma_cmake_kinds(ns: Seq<SyntaxNodeView>, cs: Seq<int>, k: int, on: bool)
    ensures
        kinds_fit(Language::CMake, cmake::command_items(ns, cs, k, on)),
    decreases cs.len() - k,
{
    if 0 <= k < cs.len() {
        let c = ns[cs[k]];
        if c.kind == "identifier"@ {
            lemma_cmake_kinds(ns, cs, k + 1, on || cmake::is_include_command(crate::text::trim(c.text)));
        } else {
            lemma_cmake_kinds(ns, cs, k + 1, on);
            if on && c.kind == "argument_list"@ {
                lemma_kinds_concat(
                    Language::CMake,
                    cmake::argument_items(ns, cs[k]),
                    cmake::command_items(ns, cs, k + 1, on),
                );
            }
        }
    }
}

proof fn lemma_literal_kinds(ns: Seq<SyntaxNodeView>, ms: Seq<int>, kind: RawImportKind, lang: Language)
    requires
        reports_kind(lang, kind),
    ensures
        kinds_fit(lang, literal_items(ns, ms, kind)),
{
}

proof fn lemma_python_from_names(ns: Seq<SyntaxNodeView>, ms: Seq<int>)
    ensures
        kinds_fit(
            Language::Python,
            ms.map_values(|m: int| item(ns[m].text, RawImportKind::Module, ns[m])),
        ),
{
}

proof fn lemma_rust_kinds(ns: Seq<SyntaxNodeView>, ps: Seq<Seq<char>>, n: SyntaxNodeView)
    ensures
        kinds_fit(Language::Rust, ps.map_values(|p: Seq<char>| item(p, RawImportKind::Symbol, n))),
{
}

proof fn lemma_node_kinds(ns: Seq<SyntaxNodeView>, lang: Language, i: int)
    requires
        0 <= i < ns.len(),
    ensures
        kinds_fit(lang, node_imports(ns, lang, i)),
{
    let end = subtree_end(ns, i);
    match lang {
        Language::C | Language::Cpp => lemma_cpp_kinds(ns, crate::syntax::children(ns, i), lang),
        Language::Go => lemma_literal_kinds(
            ns,
            scan(ns, ScanTarget::Literal, i, end),
            RawImportKind::Module,
            lang,
        ),
        Language::Java => lemma_java_kinds(ns, crate::syntax::children(ns, i)),
        Language::Bash => lemma_bash_kinds(ns, crate::syntax::children(ns, i), 0, false),
        Language::Make => lemma_make_kinds(ns, i, end),
        Language::CMake => lemma_cmake_kinds(ns, crate::syntax::children(ns, i), 0, false),
        Language::TypeScript | Language::JavaScript => {
            match typescript::trigger_kind(ns[i]) {
                Some(kind) => lemma_literal_kinds(ns, scan(ns, ScanTarget::Literal, i, end), kind, lang),
                None => {},
            }
        },
        Language::Python => {
            lemma_python_from_names(ns, scan(ns, ScanTarget::DottedName, i + 1, end));
        },
        Language::Rust => {
            lemma_rust_kinds(
                ns,
                rust::list_paths(ns, Seq::empty(), i + 1, end, Some("argument"@)),
                ns[i],
            );
        },
        Language::Unknown => {},
    }
}

proof fn lemma_raw_kinds(ns: Seq<SyntaxNodeView>, lang: Language, n: int)
    requires
        n <= ns.len(),
    ensures
        kinds_fit(lang, raw_imports(ns, lang, n)),
    decreases n,
{
    if n > 0 {
        lemma_raw_kinds(ns, lang, n - 1);
        lemma_node_kinds(ns, lang, n - 1);
        lemma_kinds_concat(lang, raw_imports(ns, lang, n - 1), node_imports(ns, lang, n - 1));
    }
}

/// Each language's extractor reports only its own kinds of import, and
/// only Python's `from` statements carry the names they import.
pub proof fn law_import_kinds(source: Seq<char>, lang: Language)
    ensures
        kinds_fit(lang, imports_in(source, lang)),
{
    match grammar_of(lang) {
        Some(g) => match syntax_of(source, g) {
            Some(ns) => {
                lemma_raw_kinds(ns, lang, ns.len() as int);
                let raw = raw_imports(ns, lang, ns.len() as int);
                crate::parser::tidy::law_tidy_imports(raw);
                let t = tidy_imports(raw);
                assert forall|j: int| 0 <= j < t.len() implies reports_kind(lang, (#[trigger] t[j]).kind)
                    && (t[j].symbols.len() > 0 ==> lang == Language::Python && t[j].kind
                    == RawImportKind::Symbol) by {
                    assert(t.contains(t[j]));
                    let k = choose|k: int| 0 <= k < raw.len() && raw[k] == t[j];
                }
            },
            None => {},
        },
        None => {},
    }
}

} // verus!
