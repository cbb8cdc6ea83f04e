//! Records of a scan, and the per-file analysis that produces them.

use vstd::prelude::*;
use crate::graph::GraphData;
use crate::lang::{block_comments, language_of_path, line_comments, Language};
use crate::path::{parse_path, render, strip_prefix_path, PathModel};
use crate::stats::{count_lines, tally};
use crate::text::lines;

verus! {

/// Which ignore files a scan disregards.
#[derive(Debug, Clone, Copy, Default)]
pub struct IgnoreOptions {
    pub no_ignore: bool,
    pub no_ignore_parent: bool,
    pub no_ignore_dot: bool,
    pub no_ignore_vcs: bool,
}

/// Options of a scan.
#[derive(Debug, Clone, Copy, Default)]
pub struct ScanOptions {
    pub ignore: IgnoreOptions,
}

/// Statistics of one scanned file.
#[derive(Debug, Clone)]
pub struct FileResult {
    pub path: String,
    pub rel_path: String,
    pub language: Language,
    pub lines: u64,
    pub code: u64,
    pub comments: u64,
    pub blanks: u64,
}

/// A phase of a scan.
#[derive(Debug, Clone, Copy, PartialEq, Eq, Structural)]
pub enum ProgressStage {
    ScanningFiles,
    ResolvingDependencies,
    BuildingGraph,
}

impl ProgressStage {
    /// What the phase is called in progress output.
    pub fn message(self) -> (res: &'static str)
        ensures
            res@ == stage_message(self),
    {
        match self {
            ProgressStage::ScanningFiles => "scanning files",
            ProgressStage::ResolvingDependencies => "resolving Rust dependencies",
            ProgressStage::BuildingGraph => "building graph",
        }
    }
}

pub open spec fn stage_message(stage: ProgressStage) -> Seq<char> {
    match stage {
        ProgressStage::ScanningFiles => "scanning files"@,
        ProgressStage::ResolvingDependencies => "resolving Rust dependencies"@,
        ProgressStage::BuildingGraph => "building graph"@,
    }
}

/// A progress notification of a scan.
#[derive(Debug, Clone, Copy, PartialEq, Eq, Structural)]
pub enum ProgressEvent {
    Stage(ProgressStage),
    FileScanned,
}

/// What a scan returns.
#[derive(Debug, Clone)]
pub struct ScanOutput {
    pub files: Vec<FileResult>,
    pub graph: GraphData,
}

/// The text of `path` relative to `root`, or of `path` itself when it is not
/// under `root`.
pub open spec fn relative_text(root: Seq<char>, path: Seq<char>) -> Seq<char> {
    match strip_prefix_path(parse_path(path), parse_path(root)) {
        Some(rel) => render(rel),
        None => render(parse_path(path)),
    }
}

/// The path of `path` relative to `root` as the crate writes it.
pub fn relative_path(root: &str, path: &str) -> (res: String)
    ensures
        res@ == relative_text(root@, path@),
{
    let p = PathModel::from_str(path);
    let r = PathModel::from_str(root);
    match p.strip_prefix(&r) {
        Some(rel) => rel.to_string_path(),
        None => p.to_string_path(),
    }
}

/// The statistics of the file at `path`, whose text is `source`.
pub fn analyze_source(root: &str, path: &str, source: &str) -> (res: FileResult)
    ensures
        res.path@ == path@,
        res.rel_path@ == relative_text(root@, path@),
        res.language == language_of_path(path@),
        res.lines == lines(source@).len(),
        res.code == tally(
            lines(source@),
            line_comments(res.language),
            block_comments(res.language),
        ).0,
        res.comments == tally(
            lines(source@),
            line_comments(res.language),
            block_comments(res.language),
        ).1,
        res.blanks == tally(
            lines(source@),
            line_comments(res.language),
            block_comments(res.language),
        ).2,
{
    let language = Language::from_path(path);
    let (lines, code, comments, blanks) = count_lines(source, language);
    let rel_path = relative_path(root, path);
    let path_s = path.to_owned();
    FileResult { path: path_s, rel_path, language, lines, code, comments, blanks }
}

} // verus!
