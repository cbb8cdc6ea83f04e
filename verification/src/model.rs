//! Plain records passed between scanning, resolution and graph building.

use vstd::prelude::*;
use crate::lang::Language;
use crate::parser::RawImportKind;

verus! {

/// A dependency from one file to another, found by resolving its source.
#[derive(Debug, Clone, PartialEq, Eq)]
pub struct ResolvedEdge {
    pub from: String,
    pub to: String,
    pub label: String,
    pub language: Language,
}

/// The mathematical value of a `ResolvedEdge`.
pub struct ResolvedEdgeView {
    pub from: Seq<char>,
    pub to: Seq<char>,
    pub label: Seq<char>,
    pub language: Language,
}

impl View for ResolvedEdge {
    type V = ResolvedEdgeView;

    open spec fn view(&self) -> ResolvedEdgeView {
        ResolvedEdgeView {
            from: self.from@,
            to: self.to@,
            label: self.label@,
            language: self.language,
        }
    }
}

/// The views of a list of edges.
pub open spec fn edges_view(v: Seq<ResolvedEdge>) -> Seq<ResolvedEdgeView> {
    v.map_values(|e: ResolvedEdge| e@)
}

/// An import written in a file, before it is resolved to a file.
#[derive(Debug, Clone)]
pub struct ImportEdge {
    pub from: String,
    pub target: String,
    pub kind: RawImportKind,
    pub language: Language,
}

} // verus!
