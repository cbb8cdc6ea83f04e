//! Dependencies of Rust files on one another.
//!
//! Files under a Cargo manifest are resolved by rust-analyzer against their
//! workspace, and what it found is handed in; the other files are resolved
//! from their syntax alone: each `mod name;` to the module file beside the
//! file, each `use` path to the first file that one of its prefixes names.

pub mod rust;
pub mod workspace;

use vstd::prelude::*;
use crate::backend::rust::{names_of, semantic_edges_spec, BackendError};
use crate::model::{edges_view, ResolvedEdge, ResolvedEdgeView};
use crate::resolver::common::FileSystemView;

verus! {

/// The dependency edges among the Rust `files` under `root`: the edges
/// `workspace` found for the files under a manifest, then those found from
/// the syntax of the files without one, each like edge once.
pub fn semantic_edges(root: &str, files: &[String], fs: &FileSystemView, workspace: &[ResolvedEdge]) -> (res:
    Result<Vec<ResolvedEdge>, BackendError>)
    ensures
        match res {
            Ok(v) => semantic_edges_spec(root@, names_of(files@), *fs, edges_view(workspace@)) == Ok::<
                _,
                Seq<char>,
            >(edges_view(v@)),
            Err(BackendError::Unreadable(p)) => semantic_edges_spec(
                root@,
                names_of(files@),
                *fs,
                edges_view(workspace@),
            ) == Err::<Seq<ResolvedEdgeView>, _>(p@),
        },
{
    rust::semantic_edges(root, files, fs, workspace)
}

} // verus!
