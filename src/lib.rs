//! Partitioning of simplex meshes for parallel computation: the element
//! adjacency ("dual") graph, the dispatch to a graph partitioner, the
//! translation of its labels into element tags, and the cut-face count.
use vstd::prelude::*;

pub mod backend;
pub mod dual_graph;
pub mod laws;
pub mod mesh;

verus! {

/// Index of an element, a vertex or a face.
pub type Idx = u32;

/// Element tag.
pub type Tag = i16;

} // verus!
