//! Properties that relate several calls, or hold of every mesh.
use vstd::prelude::*;

use crate::dual_graph::{valid_face, valid_faces};
use crate::mesh::{count_cut, is_cut, labels_valid, tags_of_labels, PartitionError, SimplexMesh};
use crate::Idx;

verus! {

/// After a successful partition into `n_parts` parts, every element carries
/// exactly one tag, and each tag is a part number in `[0, n_parts)` plus one.
pub proof fn lemma_partition_tags_in_range(
    m0: SimplexMesh,
    m1: SimplexMesh,
    n_parts: Idx,
    r: Result<(), PartitionError>,
)
    requires
        SimplexMesh::metis_step(m0, m1, n_parts, r),
        r is Ok,
    ensures
        m1.tags().len() == m0.tags().len(),
        forall|i: int| 0 <= i < m1.tags().len() ==> 1 <= #[trigger] m1.tags()[i] <= n_parts,
{
    assert forall|i: int| 0 <= i < m1.tags().len() implies 1 <= #[trigger] m1.tags()[i]
        <= n_parts by {
        let out = choose|out: Seq<i32>|
            labels_valid(out, n_parts as int, m0.tags().len()) && m1.tags()
                == #[trigger] tags_of_labels(out);
        assert(0 <= out[i] < n_parts);
    }
}

/// A failed partition leaves every element tag as it was.
pub proof fn lemma_failed_partition_keeps_tags(
    m0: SimplexMesh,
    m1: SimplexMesh,
    n_parts: Idx,
    r: Result<(), PartitionError>,
)
    requires
        SimplexMesh::metis_step(m0, m1, n_parts, r),
        r is Err,
    ensures
        m1.tags() == m0.tags(),
{
}

/// Whether the dual graph was cached before or built by the call, two
/// well-formed meshes with the same faces and as many elements hold the same
/// offsets and indices, so the backend is handed the same graph.
pub proof fn lemma_dual_graph_independent_of_cache(m1: SimplexMesh, m2: SimplexMesh)
    requires
        m1.wf(),
        m2.wf(),
        m1.face_elems() == m2.face_elems(),
        m1.tags().len() == m2.tags().len(),
        m1.dual() is Some,
        m2.dual() is Some,
    ensures
        m1.dual()->0.ptr@ == m2.dual()->0.ptr@,
        m1.dual()->0.indices@ == m2.dual()->0.indices@,
{
}

/// No more faces are cut than there are faces, so the cut ratio lies in
/// `[0, 1]` whenever there is a face.
pub proof fn lemma_cut_count_bounded(faces: Seq<Vec<usize>>, tags: Seq<i16>, m: int)
    requires
        0 <= m <= faces.len(),
    ensures
        count_cut(faces, tags, m) <= m,
    decreases m,
{
    if m > 0 {
        lemma_cut_count_bounded(faces, tags, m - 1);
    }
}

/// Where all elements share one tag no face is cut: the cut ratio is zero.
pub proof fn lemma_uniform_tags_no_cut(faces: Seq<Vec<usize>>, tags: Seq<i16>, t: i16, m: int)
    requires
        valid_faces(faces, tags.len()),
        forall|i: int| 0 <= i < tags.len() ==> #[trigger] tags[i] == t,
        0 <= m <= faces.len(),
    ensures
        count_cut(faces, tags, m) == 0,
    decreases m,
{
    if m > 0 {
        lemma_uniform_tags_no_cut(faces, tags, t, m - 1);
        assert(valid_face(faces[m - 1]@, tags.len()));
        assert(!is_cut(faces[m - 1]@, tags));
    }
}

} // verus!
