//! Calls into the graph-partitioning library.
use vstd::prelude::*;

verus! {

#[verifier::external_type_specification]
#[verifier::external_body]
pub struct ExMetisError(metis::Error);

/// Whether the CSR graph `xadj` / `adjncy` has an edge from `a` to `b`.
pub open spec fn has_edge(xadj: Seq<i32>, adjncy: Seq<i32>, a: int, b: int) -> bool {
    exists|k: int| xadj[a] <= k < xadj[a + 1] && 0 <= k < adjncy.len() && adjncy[k] == b
}

/// Whether the CSR graph `xadj` / `adjncy` is undirected: every edge is
/// listed from both of its ends.
pub open spec fn csr_symmetric(xadj: Seq<i32>, adjncy: Seq<i32>) -> bool {
    forall|a: int, b: int|
        0 <= a < xadj.len() - 1 && 0 <= b < xadj.len() - 1 ==> (#[trigger] has_edge(
            xadj,
            adjncy,
            a,
            b,
        ) <==> has_edge(xadj, adjncy, b, a))
}

/// Relies on metis::Graph::new, which refuses malformed CSR arrays, and on
/// metis::Graph::part_recursive, which writes into `part` and keeps its
/// length. METIS asks for an undirected graph, which Graph::new does not
/// check. What METIS writes depends on the C library's random numbers, so
/// nothing more is stated of it.
#[verifier::external_body]
pub(crate) fn metis_part_recursive(
    n_parts: i32,
    xadj: &Vec<i32>,
    adjncy: &Vec<i32>,
    part: &mut Vec<i32>,
) -> (r: Result<i32, metis::Error>)
    requires
        n_parts > 0,
        old(part).len() + 1 == xadj.len(),
        csr_symmetric(xadj@, adjncy@),
    ensures
        final(part).len() == old(part).len(),
{
    metis::Graph::new(1, n_parts, xadj, adjncy)?.part_recursive(part)
}

} // verus!
