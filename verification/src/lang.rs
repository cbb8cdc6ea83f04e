//! The languages the crate knows and their comment syntax.

use vstd::prelude::*;
use crate::path::{extension, parse_path, PathModel};

verus! {

/// A source language.
#[derive(Debug, Clone, Copy, PartialEq, Eq, Hash, PartialOrd, Ord, Structural)]
pub enum Language {
    Rust,
    TypeScript,
    JavaScript,
    Python,
    Go,
    C,
    Cpp,
    Java,
    Bash,
    Make,
    CMake,
    Unknown,
}

/// The language of a file: Rust for a `.rs` extension, otherwise unknown.
pub open spec fn language_of_path(path: Seq<char>) -> Language {
    if extension(parse_path(path)) == Some(seq!['r', 's']) {
        Language::Rust
    } else {
        Language::Unknown
    }
}


/// A file is Rust exactly when its extension is `rs`; every other file,
/// `.rb` and `.rc` among them, is of unknown language.
pub proof fn law_rust_by_extension(path: Seq<char>)
    ensures
        language_of_path(path) == Language::Rust <==> extension(parse_path(path)) == Some(
            seq!['r', 's'],
        ),
        language_of_path(path) != Language::Rust ==> language_of_path(path) == Language::Unknown,
{
}

/// Line-comment prefixes of a language.
pub open spec fn line_comments(lang: Language) -> Seq<Seq<char>> {
    match lang {
        Language::Python | Language::Bash | Language::Make | Language::CMake => seq![seq!['#']],
        Language::Unknown => Seq::empty(),
        _ => seq![seq!['/', '/']],
    }
}

/// Block-comment delimiters of a language.
pub open spec fn block_comments(lang: Language) -> Seq<(Seq<char>, Seq<char>)> {
    match lang {
        Language::Python | Language::Bash | Language::Make | Language::CMake
        | Language::Unknown => Seq::empty(),
        _ => seq![(seq!['/', '*'], seq!['*', '/'])],
    }
}

/// The comment markers of a language, as used by line counting.
pub struct CommentSyntax {
    pub line: Vec<Vec<char>>,
    pub block: Vec<(Vec<char>, Vec<char>)>,
}

impl CommentSyntax {
    pub open spec fn line_view(&self) -> Seq<Seq<char>> {
        self.line.deep_view()
    }

    pub open spec fn block_view(&self) -> Seq<(Seq<char>, Seq<char>)> {
        self.block.deep_view()
    }
}

impl Language {
    /// The language of the file at `path`, by its extension.
    pub fn from_path(path: &str) -> (res: Language)
        ensures
            res == language_of_path(path@),
            res == Language::Rust <==> extension(parse_path(path@)) == Some(seq!['r', 's']),
            res == Language::Rust || res == Language::Unknown,
    {
        let p = PathModel::from_str(path);
        match p.extension() {
            Some(ext) => {
                proof {
                    if ext@ == seq!['r', 's'] {
                        assert(ext@.len() == 2);
                    }
                    if ext@.len() == 2 && ext@[0] == 'r' && ext@[1] == 's' {
                        assert(ext@ =~= seq!['r', 's']);
                    }
                }
                if ext.len() == 2 && ext[0] == 'r' && ext[1] == 's' {
                    Language::Rust
                } else {
                    Language::Unknown
                }
            },
            None => Language::Unknown,
        }
    }

    /// The display name of the language.
    pub fn name(self) -> (res: &'static str)
        ensures
            res@ == language_name(self),
    {
        match self {
            Language::Rust => "Rust",
            Language::TypeScript => "TypeScript",
            Language::JavaScript => "JavaScript",
            Language::Python => "Python",
            Language::Go => "Go",
            Language::C => "C",
            Language::Cpp => "C++",
            Language::Java => "Java",
            Language::Bash => "Bash",
            Language::Make => "Make",
            Language::CMake => "CMake",
            Language::Unknown => "Unknown",
        }
    }

    /// The comment markers that line counting recognises for the language.
    pub fn comment_syntax(self) -> (res: CommentSyntax)
        ensures
            res.line_view() == line_comments(self),
            res.block_view() == block_comments(self),
    {
        match self {
            Language::Python | Language::Bash | Language::Make | Language::CMake => {
                let line = vec![vec!['#']];
                let block: Vec<(Vec<char>, Vec<char>)> = Vec::new();
                proof {
                    assert(line.deep_view() =~= seq![seq!['#']]) by {
                        assert(line@[0].deep_view() =~= seq!['#']);
                    }
                    assert(block.deep_view() =~= Seq::<(Seq<char>, Seq<char>)>::empty());
                }
                CommentSyntax { line, block }
            },
            Language::Unknown => {
                let line: Vec<Vec<char>> = Vec::new();
                let block: Vec<(Vec<char>, Vec<char>)> = Vec::new();
                proof {
                    assert(line.deep_view() =~= Seq::<Seq<char>>::empty());
                    assert(block.deep_view() =~= Seq::<(Seq<char>, Seq<char>)>::empty());
                }
                CommentSyntax { line, block }
            },
            _ => {
                let line = vec![vec!['/', '/']];
                let block = vec![(vec!['/', '*'], vec!['*', '/'])];
                proof {
                    assert(line.deep_view() =~= seq![seq!['/', '/']]) by {
                        assert(line@[0].deep_view() =~= seq!['/', '/']);
                    }
                    assert(block.deep_view() =~= seq![(seq!['/', '*'], seq!['*', '/'])]) by {
                        assert(block@[0].0.deep_view() =~= seq!['/', '*']);
                        assert(block@[0].1.deep_view() =~= seq!['*', '/']);
                    }
                }
                CommentSyntax { line, block }
            },
        }
    }

    /// Whether the crate analyses files of this language.
    pub fn is_supported(self) -> (res: bool)
        ensures
            res == (self != Language::Unknown),
    {
        !matches!(self, Language::Unknown)
    }
}

/// The display name of a language.
pub open spec fn language_name(lang: Language) -> Seq<char> {
    match lang {
        Language::Rust => "Rust"@,
        Language::TypeScript => "TypeScript"@,
        Language::JavaScript => "JavaScript"@,
        Language::Python => "Python"@,
        Language::Go => "Go"@,
        Language::C => "C"@,
        Language::Cpp => "C++"@,
        Language::Java => "Java"@,
        Language::Bash => "Bash"@,
        Language::Make => "Make"@,
        Language::CMake => "CMake"@,
        Language::Unknown => "Unknown"@,
    }
}

} // verus!
