//! Code statistics and file dependency graphs: line counting, import
//! extraction, path resolution and graph assembly for source trees.

pub mod text;
pub mod path;
pub mod lang;
pub mod stats;
pub mod model;
pub mod parser;
pub mod syntax;
pub mod walker;
pub mod graph;
pub mod resolver;
pub mod backend;
pub mod report;
pub mod tui;

pub use graph::{build_graph, Edge, GraphData, Node};
pub use lang::Language;
pub use model::{ImportEdge, ResolvedEdge};
pub use walker::{FileResult, IgnoreOptions, ProgressEvent, ProgressStage, ScanOptions, ScanOutput};
