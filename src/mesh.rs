//! A simplex mesh seen through its element tags and its connectivity, and
//! its partitioning into parts for parallel workers.
use vstd::prelude::*;

use crate::backend::{csr_symmetric, has_edge, metis_part_recursive};
use crate::dual_graph::{
    build_dual_graph, dual_indices, dual_offsets, lemma_dual_graph_symmetric, valid_face, valid_faces,
    CsrGraph,
};
use crate::laws::lemma_uniform_tags_no_cut;
use crate::{Idx, Tag};

verus! {

/// A graph-partitioning library the mesh can be handed to.
#[derive(Clone, Copy, Debug, PartialEq, Eq, Structural)]
pub enum Backend {
    Metis,
    Scotch,
}

/// Why a partitioning or a quality request failed.
#[derive(Clone, Copy, Debug, PartialEq, Eq, Structural)]
pub enum PartitionError {
    /// The named backend is not part of this build.
    BackendUnavailable(Backend),
    /// The backend ran but gave no usable partition.
    BackendFailure,
    /// An adjacency index does not fit the backend's integer type.
    IndexConversion,
    /// The face-to-element connectivity has not been provided.
    MissingConnectivity,
    /// The part count is zero, above the number of elements, or above the
    /// largest tag.
    InvalidPartitionCount,
}

/// Whether `backend` is part of this build.
pub open spec fn backend_available(backend: Backend) -> bool {
    backend == Backend::Metis
}

/// Whether `backend` is part of this build.
pub fn backend_is_available(backend: Backend) -> (r: bool)
    ensures
        r == backend_available(backend),
{
    match backend {
        Backend::Metis => true,
        Backend::Scotch => false,
    }
}

/// Part counts that can be asked for on a mesh of `n_elems` elements: at
/// least one, at most one per element, and each part number plus one must be
/// a tag.
pub open spec fn valid_part_count(n_parts: Idx, n_elems: nat) -> bool {
    1 <= n_parts <= n_elems && n_parts <= i16::MAX
}

/// One label per element, each in `[0, n_parts)`.
pub open spec fn labels_valid(labels: Seq<i32>, n_parts: int, n_elems: nat) -> bool {
    labels.len() == n_elems && forall|i: int| 0 <= i < labels.len() ==> 0 <= #[trigger] labels[i]
        < n_parts
}

/// The tags that encode a partition: part `p` is tag `p + 1`.
pub open spec fn tags_of_labels(labels: Seq<i32>) -> Seq<Tag> {
    labels.map_values(|l: i32| (l + 1) as Tag)
}

/// Whether every value fits an `i32`.
pub open spec fn fits_i32(v: Seq<usize>) -> bool {
    forall|k: int| 0 <= k < v.len() ==> #[trigger] v[k] <= i32::MAX
}

pub open spec fn as_i32(v: Seq<usize>) -> Seq<i32> {
    v.map_values(|x: usize| x as i32)
}

/// Whether a face lies between two elements with different tags.
pub open spec fn is_cut(face: Seq<usize>, tags: Seq<Tag>) -> bool {
    face.len() == 2 && tags[face[0] as int] != tags[face[1] as int]
}

/// The number of cut faces among the first `m` faces.
pub open spec fn count_cut(faces: Seq<Vec<usize>>, tags: Seq<Tag>, m: int) -> nat
    decreases m,
{
    if m <= 0 {
        0
    } else {
        count_cut(faces, tags, m - 1) + if is_cut(faces[m - 1]@, tags) {
            1nat
        } else {
            0nat
        }
    }
}

fn to_i32(v: &Vec<usize>) -> (r: Option<Vec<i32>>)
    ensures
        r is Some <==> fits_i32(v@),
        r is Some ==> r->0@ == as_i32(v@),
{
    let mut out: Vec<i32> = Vec::new();
    let mut i: usize = 0;
    while i < v.len()
        invariant
            0 <= i <= v@.len(),
            out@ == as_i32(v@.subrange(0, i as int)),
            fits_i32(v@.subrange(0, i as int)),
        decreases v@.len() - i,
    {
        if v[i] > i32::MAX as usize {
            assert(!(v@[i as int] <= i32::MAX));
            return None;
        }
        out.push(v[i] as i32);
        i += 1;
        assert(out@ =~= as_i32(v@.subrange(0, i as int)));
        assert forall|k: int| 0 <= k < i implies #[trigger] v@.subrange(0, i as int)[k]
            <= i32::MAX by {
            if k < i - 1 {
                assert(v@.subrange(0, i as int)[k] == v@.subrange(0, i - 1)[k]);
            }
        }
    }
    assert(v@.subrange(0, i as int) =~= v@);
    Some(out)
}

proof fn lemma_edge_is_neighbor(g: CsrGraph, n: nat, a: int, b: int)
    requires
        g.wf(n),
        fits_i32(g.ptr@),
        fits_i32(g.indices@),
        n <= usize::MAX,
        0 <= a < n,
        0 <= b < n,
    ensures
        has_edge(as_i32(g.ptr@), as_i32(g.indices@), a, b) <==> g.neighbors(a).contains(
            b as usize,
        ),
{
    let xadj = as_i32(g.ptr@);
    let adjncy = as_i32(g.indices@);
    assert(g.ptr@[a] <= g.ptr@[a + 1] <= g.ptr@[n as int]);
    assert(g.ptr@[a + 1] <= i32::MAX);
    assert(xadj[a] == g.ptr@[a] as int);
    assert(xadj[a + 1] == g.ptr@[a + 1] as int);
    if has_edge(xadj, adjncy, a, b) {
        let k = choose|k: int| xadj[a] <= k < xadj[a + 1] && 0 <= k < adjncy.len() && adjncy[k] == b;
        assert(g.indices@[k] <= i32::MAX);
        assert(g.neighbors(a)[k - g.ptr@[a]] == b as usize);
    }
    if g.neighbors(a).contains(b as usize) {
        let j = choose|j: int| 0 <= j < g.neighbors(a).len() && g.neighbors(a)[j] == b as usize;
        let k = g.ptr@[a] + j;
        assert(0 <= k < g.indices@.len());
        assert(adjncy[k] == g.indices@[k] as i32);
        assert(g.indices@[k] == b as usize);
        assert(g.indices@[k] <= i32::MAX);
        assert(adjncy[k] == b);
    }
}

/// The dual graph, in the backend's integers, is undirected.
proof fn lemma_backend_graph_symmetric(g: CsrGraph, faces: Seq<Vec<usize>>, n: nat)
    requires
        g.is_dual_of(faces, n),
        fits_i32(g.ptr@),
        fits_i32(g.indices@),
        n <= usize::MAX,
    ensures
        csr_symmetric(as_i32(g.ptr@), as_i32(g.indices@)),
{
    let xadj = as_i32(g.ptr@);
    let adjncy = as_i32(g.indices@);
    assert forall|a: int, b: int|
        0 <= a < xadj.len() - 1 && 0 <= b < xadj.len() - 1 implies (#[trigger] has_edge(
        xadj,
        adjncy,
        a,
        b,
    ) <==> has_edge(xadj, adjncy, b, a)) by {
        lemma_edge_is_neighbor(g, n, a, b);
        lemma_edge_is_neighbor(g, n, b, a);
        lemma_dual_graph_symmetric(g, faces, n, a as usize, b as usize);
    }
}

/// A simplex mesh as partitioning sees it: one tag per element, the elements
/// of each face once they are provided, and the dual graph built from them.
pub struct SimplexMesh {
    etags: Vec<Tag>,
    faces_to_elems: Option<Vec<Vec<usize>>>,
    elem_to_elems: Option<CsrGraph>,
}

impl SimplexMesh {
    /// The tag of each element.
    pub closed spec fn tags(&self) -> Seq<Tag> {
        self.etags@
    }

    /// The elements of each face, once provided.
    pub closed spec fn face_elems(&self) -> Option<Seq<Vec<usize>>> {
        match &self.faces_to_elems {
            Some(f) => Some(f@),
            None => None,
        }
    }

    /// The cached dual graph, if built.
    pub closed spec fn dual(&self) -> Option<CsrGraph> {
        self.elem_to_elems
    }

    /// Faces name elements of the mesh, and a cached dual graph is the dual
    /// graph of the faces, laid out as `dual_offsets` / `dual_indices` give it.
    pub open spec fn wf(&self) -> bool {
        &&& self.face_elems() matches Some(f) ==> valid_faces(f, self.tags().len())
        &&& self.dual() matches Some(g) ==> {
            &&& self.face_elems() matches Some(f)
            &&& g.is_dual_of(f, self.tags().len())
            &&& g.ptr@ == dual_offsets(f, self.tags().len())
            &&& g.indices@ == dual_indices(f, self.tags().len())
        }
    }

    /// What `partition_metis` does to a well-formed mesh `m0` with `n_parts`
    /// parts, giving `m1` and `r`.
    ///
    /// An invalid part count or missing face connectivity fails first and
    /// changes nothing. Otherwise the dual graph is built if it was not
    /// cached, and an index that does not fit the backend's integers fails.
    /// Otherwise METIS runs on `as_i32(dual_offsets(..))`,
    /// `as_i32(dual_indices(..))` and `n_parts`. Its labels depend on the C
    /// library's random numbers, so what holds is stated for every outcome:
    /// a success tags element `i` with `label[i] + 1` for some labels, one
    /// in `[0, n_parts)` per element (`assign_partition` says which labels
    /// succeed); a failure is `BackendFailure`. Whatever fails leaves the tags
    /// as they were.
    pub open spec fn metis_step(
        m0: SimplexMesh,
        m1: SimplexMesh,
        n_parts: Idx,
        r: Result<(), PartitionError>,
    ) -> bool {
        let n = m0.tags().len();
        &&& m1.wf()
        &&& m1.face_elems() == m0.face_elems()
        &&& m1.tags().len() == n
        &&& if !valid_part_count(n_parts, n) {
            r == Err::<(), PartitionError>(PartitionError::InvalidPartitionCount) && m1 == m0
        } else if m0.face_elems() is None {
            r == Err::<(), PartitionError>(PartitionError::MissingConnectivity) && m1 == m0
        } else {
            let f = m0.face_elems()->0;
            &&& m1.dual() is Some
            &&& if !(fits_i32(dual_offsets(f, n)) && fits_i32(dual_indices(f, n))) {
                r == Err::<(), PartitionError>(PartitionError::IndexConversion) && m1.tags()
                    == m0.tags()
            } else {
                &&& r is Ok ==> exists|l: Seq<i32>|
                    labels_valid(l, n_parts as int, n) && m1.tags() == #[trigger] tags_of_labels(l)
                &&& r is Err ==> r == Err::<(), PartitionError>(PartitionError::BackendFailure)
                    && m1.tags() == m0.tags()
            }
        }
    }

    /// A mesh with the given element tags and no connectivity yet.
    pub fn new(etags: Vec<Tag>) -> (m: SimplexMesh)
        ensures
            m.wf(),
            m.tags() == etags@,
            m.face_elems() is None,
            m.dual() is None,
    {
        SimplexMesh { etags, faces_to_elems: None, elem_to_elems: None }
    }

    pub fn n_elems(&self) -> (n: usize)
        ensures
            n == self.tags().len(),
    {
        self.etags.len()
    }

    /// The tag of each element.
    pub fn etags(&self) -> (t: &Vec<Tag>)
        ensures
            t@ == self.tags(),
    {
        &self.etags
    }

    /// The cached dual graph, if built.
    pub fn elem_to_elems(&self) -> (g: &Option<CsrGraph>)
        ensures
            *g == self.dual(),
    {
        &self.elem_to_elems
    }

    /// Hands the mesh the elements of each of its faces. They are taken, and
    /// the cached dual graph dropped, only where every face lists one element
    /// or two distinct ones, all of the mesh; otherwise nothing changes.
    pub fn set_faces_to_elems(&mut self, faces: Vec<Vec<usize>>) -> (ok: bool)
        requires
            old(self).wf(),
        ensures
            final(self).wf(),
            ok == valid_faces(faces@, old(self).tags().len()),
            ok ==> final(self).face_elems() == Some(faces@) && final(self).dual() is None
                && final(self).tags() == old(self).tags(),
            !ok ==> *final(self) == *old(self),
    {
        let n = self.etags.len();
        let mut f: usize = 0;
        while f < faces.len()
            invariant
                0 <= f <= faces@.len(),
                n == old(self).tags().len(),
                self.wf(),
                valid_faces(faces@.subrange(0, f as int), n as nat),
            decreases faces@.len() - f,
        {
            let face = &faces[f];
            let ok = if face.len() == 1 {
                face[0] < n
            } else if face.len() == 2 {
                face[0] < n && face[1] < n && face[0] != face[1]
            } else {
                false
            };
            if !ok {
                assert(!valid_face(faces@[f as int]@, n as nat));
                return false;
            }
            assert forall|g: int| 0 <= g < f + 1 implies valid_face(
                #[trigger] faces@.subrange(0, f + 1)[g]@,
                n as nat,
            ) by {
                if g < f {
                    assert(faces@.subrange(0, f + 1)[g] == faces@.subrange(0, f as int)[g]);
                }
            }
            f += 1;
        }
        assert(faces@.subrange(0, f as int) =~= faces@);
        self.faces_to_elems = Some(faces);
        self.elem_to_elems = None;
        true
    }

    /// Builds the dual graph from the faces and caches it.
    pub fn compute_elem_to_elems(&mut self)
        requires
            old(self).wf(),
            old(self).face_elems() is Some,
        ensures
            final(self).wf(),
            final(self).dual() is Some,
            final(self).tags() == old(self).tags(),
            final(self).face_elems() == old(self).face_elems(),
    {
        if let Some(f) = &self.faces_to_elems {
            self.elem_to_elems = Some(build_dual_graph(self.etags.len(), f));
        }
    }

    /// Whether some element carries a tag other than 1, so that a partition
    /// would erase information.
    pub fn has_nonuniform_tags(&self) -> (r: bool)
        ensures
            r == exists|i: int| 0 <= i < self.tags().len() && #[trigger] self.tags()[i] != 1,
    {
        let mut i: usize = 0;
        while i < self.etags.len()
            invariant
                0 <= i <= self.etags@.len(),
                forall|k: int| 0 <= k < i ==> self.etags@[k] == 1,
            decreases self.etags@.len() - i,
        {
            if self.etags[i] != 1 {
                assert(self.tags()[i as int] != 1);
                return true;
            }
            i += 1;
        }
        false
    }

    /// Writes a partition into the tags: where `labels` holds one label in
    /// `[0, n_parts)` per element, element `i` is tagged `labels[i] + 1`;
    /// otherwise the call fails with `BackendFailure` and no tag changes.
    pub fn assign_partition(&mut self, n_parts: Idx, labels: &Vec<i32>) -> (r: Result<
        (),
        PartitionError,
    >)
        requires
            old(self).wf(),
            n_parts <= i16::MAX,
        ensures
            final(self).wf(),
            final(self).face_elems() == old(self).face_elems(),
            final(self).dual() == old(self).dual(),
            labels_valid(labels@, n_parts as int, old(self).tags().len()) ==> r == Ok::<
                (),
                PartitionError,
            >(()) && final(self).tags() == tags_of_labels(labels@),
            !labels_valid(labels@, n_parts as int, old(self).tags().len()) ==> r == Err::<
                (),
                PartitionError,
            >(PartitionError::BackendFailure) && *final(self) == *old(self),
    {
        if labels.len() != self.etags.len() {
            return Err(PartitionError::BackendFailure);
        }
        let mut tags: Vec<Tag> = Vec::new();
        let mut i: usize = 0;
        while i < labels.len()
            invariant
                0 <= i <= labels@.len(),
                n_parts <= i16::MAX,
                self.wf(),
                tags@ == tags_of_labels(labels@.subrange(0, i as int)),
                forall|k: int| 0 <= k < i ==> 0 <= #[trigger] labels@[k] < n_parts,
            decreases labels@.len() - i,
        {
            let l = labels[i];
            if l < 0 || l >= n_parts as i32 {
                return Err(PartitionError::BackendFailure);
            }
            tags.push((l + 1) as Tag);
            i += 1;
            assert(tags@ =~= tags_of_labels(labels@.subrange(0, i as int)));
        }
        assert(labels@.subrange(0, i as int) =~= labels@);
        self.etags = tags;
        Ok(())
    }

    /// Partitions the elements into `n_parts` parts with METIS's recursive
    /// bisection and tags element `i` with its part number plus one.
    pub fn partition_metis(&mut self, n_parts: Idx) -> (r: Result<(), PartitionError>)
        requires
            old(self).wf(),
        ensures
            Self::metis_step(*old(self), *final(self), n_parts, r),
    {
        let n = self.etags.len();
        if n_parts == 0 || n_parts as usize > n || n_parts > Tag::MAX as Idx {
            return Err(PartitionError::InvalidPartitionCount);
        }
        if self.faces_to_elems.is_none() {
            return Err(PartitionError::MissingConnectivity);
        }
        if self.elem_to_elems.is_none() {
            self.compute_elem_to_elems();
        }
        let (xadj, adjncy) = match &self.elem_to_elems {
            Some(g) => match (to_i32(&g.ptr), to_i32(&g.indices)) {
                (Some(x), Some(a)) => (x, a),
                _ => {
                    return Err(PartitionError::IndexConversion);
                },
            },
            None => {
                return Err(PartitionError::IndexConversion);
            },
        };
        proof {
            let g = self.elem_to_elems->0;
            lemma_backend_graph_symmetric(g, self.face_elems()->0, n as nat);
        }
        let mut part: Vec<i32> = vec![0; n];
        match metis_part_recursive(n_parts as i32, &xadj, &adjncy, &mut part) {
            Ok(_) => self.assign_partition(n_parts, &part),
            Err(_) => Err(PartitionError::BackendFailure),
        }
    }

    /// Scotch is not part of this build: fails with `BackendUnavailable`
    /// and touches nothing.
    pub fn partition_scotch(&mut self, n_parts: Idx) -> (r: Result<(), PartitionError>)
        ensures
            r == Err::<(), PartitionError>(PartitionError::BackendUnavailable(Backend::Scotch)),
            *final(self) == *old(self),
    {
        Err(PartitionError::BackendUnavailable(Backend::Scotch))
    }

    /// Partitions the elements with `backend`; an unavailable backend fails
    /// with `BackendUnavailable` and touches nothing.
    pub fn partition(&mut self, backend: Backend, n_parts: Idx) -> (r: Result<(), PartitionError>)
        requires
            old(self).wf(),
        ensures
            !backend_available(backend) ==> r == Err::<(), PartitionError>(
                PartitionError::BackendUnavailable(backend),
            ) && *final(self) == *old(self),
            backend == Backend::Metis ==> Self::metis_step(*old(self), *final(self), n_parts, r),
    {
        match backend {
            Backend::Metis => self.partition_metis(n_parts),
            Backend::Scotch => self.partition_scotch(n_parts),
        }
    }

    /// The number of faces whose two elements carry different tags, and the
    /// number of faces; their ratio is the partition quality. Fails with
    /// `MissingConnectivity` where no faces were provided.
    pub fn cut_faces(&self) -> (r: Result<(usize, usize), PartitionError>)
        requires
            self.wf(),
        ensures
            self.face_elems() is None ==> r == Err::<(usize, usize), PartitionError>(
                PartitionError::MissingConnectivity,
            ),
            self.face_elems() matches Some(f) ==> r == Ok::<(usize, usize), PartitionError>(
                (count_cut(f, self.tags(), f.len() as int) as usize, f.len() as usize),
            ),
            r matches Ok((cut, total)) ==> cut <= total,
            r is Ok && (forall|i: int, j: int|
                0 <= i < self.tags().len() && 0 <= j < self.tags().len() ==> self.tags()[i]
                    == self.tags()[j]) ==> r->Ok_0.0 == 0,
    {
        match &self.faces_to_elems {
            None => Err(PartitionError::MissingConnectivity),
            Some(faces) => {
                let mut cut: usize = 0;
                let mut f: usize = 0;
                while f < faces.len()
                    invariant
                        0 <= f <= faces@.len(),
                        valid_faces(faces@, self.etags@.len()),
                        cut == count_cut(faces@, self.etags@, f as int),
                        cut <= f,
                    decreases faces@.len() - f,
                {
                    let face = &faces[f];
                    assert(valid_face(faces@[f as int]@, self.etags@.len()));
                    if face.len() == 2 && self.etags[face[0]] != self.etags[face[1]] {
                        cut += 1;
                    }
                    f += 1;
                }
                proof {
                    if self.etags@.len() > 0 && (forall|i: int, j: int|
                        0 <= i < self.tags().len() && 0 <= j < self.tags().len()
                            ==> self.tags()[i] == self.tags()[j]) {
                        assert forall|i: int| 0 <= i < self.etags@.len() implies #[trigger] self.etags@[i]
                            == self.etags@[0] by {
                            assert(self.tags()[i] == self.tags()[0]);
                        }
                        lemma_uniform_tags_no_cut(faces@, self.etags@, self.etags@[0], f as int);
                    } else if self.etags@.len() == 0 {
                        lemma_uniform_tags_no_cut(faces@, self.etags@, 0, f as int);
                    }
                }
                Ok((cut, faces.len()))
            },
        }
    }
}

} // verus!
