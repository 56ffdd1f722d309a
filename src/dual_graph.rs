//! The element adjacency ("dual") graph in compressed sparse row form.
use vstd::prelude::*;

verus! {

/// Whether element `a` and element `b` are the two elements of one face of
/// `faces`, where each face lists the elements it belongs to.
pub open spec fn shares_face(faces: Seq<Vec<usize>>, a: int, b: int) -> bool {
    shares_face_before(faces, faces.len() as int, a, b)
}

/// Whether one of the first `m` faces lies between `a` and `b`.
pub open spec fn shares_face_before(faces: Seq<Vec<usize>>, m: int, a: int, b: int) -> bool {
    exists|f: int| 0 <= f < m && #[trigger] is_face_between(faces[f]@, a, b)
}

/// Whether the element list of a face is exactly the pair `a`, `b`, in either order.
pub open spec fn is_face_between(face: Seq<usize>, a: int, b: int) -> bool {
    face.len() == 2 && ((face[0] == a && face[1] == b) || (face[0] == b && face[1] == a))
}

/// Each face belongs to one element (a boundary face) or two distinct elements
/// (an interior face), all below `n_elems`.
pub open spec fn valid_faces(faces: Seq<Vec<usize>>, n_elems: nat) -> bool {
    forall|f: int| 0 <= f < faces.len() ==> valid_face(#[trigger] faces[f]@, n_elems)
}

pub open spec fn valid_face(face: Seq<usize>, n_elems: nat) -> bool {
    &&& 1 <= face.len() <= 2
    &&& forall|k: int| 0 <= k < face.len() ==> face[k] < n_elems
    &&& face.len() == 2 ==> face[0] != face[1]
}

/// A graph over `n` nodes: node `a`'s neighbours are
/// `indices[ptr[a] .. ptr[a + 1]]`.
pub struct CsrGraph {
    pub ptr: Vec<usize>,
    pub indices: Vec<usize>,
}

impl CsrGraph {
    /// Offsets start at zero, never decrease and end at the number of
    /// indices; every index names a node.
    pub open spec fn wf(&self, n: nat) -> bool {
        &&& self.ptr@.len() == n + 1
        &&& self.ptr@[0] == 0
        &&& self.ptr@[n as int] == self.indices@.len()
        &&& forall|i: int, j: int| 0 <= i <= j <= n ==> self.ptr@[i] <= self.ptr@[j]
        &&& forall|k: int| 0 <= k < self.indices@.len() ==> self.indices@[k] < n
    }

    pub open spec fn n_nodes(&self) -> nat {
        (self.ptr@.len() - 1) as nat
    }

    pub open spec fn neighbors(&self, a: int) -> Seq<usize> {
        self.indices@.subrange(self.ptr@[a] as int, self.ptr@[a + 1] as int)
    }

    /// The dual graph of `faces` over `n` elements: `b` is a neighbour of `a`
    /// exactly when a face lies between them, and no neighbour is listed twice.
    pub open spec fn is_dual_of(&self, faces: Seq<Vec<usize>>, n: nat) -> bool {
        &&& self.wf(n)
        &&& forall|a: int, b: usize|
            0 <= a < n ==> (#[trigger] self.neighbors(a).contains(b) <==> shares_face(
                faces,
                a,
                b as int,
            ))
        &&& forall|a: int| 0 <= a < n ==> #[trigger] self.neighbors(a).no_duplicates()
    }
}

/// The adjacency lists after the first `m` faces: a face between `a` and `b`
/// appends `b` to the list of `a` and `a` to the list of `b`, unless `b` is
/// already in the list of `a`.
pub open spec fn adjacency_upto(faces: Seq<Vec<usize>>, n: nat, m: int) -> Seq<Seq<usize>>
    decreases m,
{
    if m <= 0 {
        Seq::new(n, |_i: int| Seq::<usize>::empty())
    } else {
        let adj = adjacency_upto(faces, n, m - 1);
        let face = faces[m - 1]@;
        if face.len() == 2 && !adj[face[0] as int].contains(face[1]) {
            adj.update(face[0] as int, adj[face[0] as int].push(face[1])).update(
                face[1] as int,
                adj[face[1] as int].push(face[0]),
            )
        } else {
            adj
        }
    }
}

/// The adjacency lists of the dual graph of `faces`.
pub open spec fn adjacency(faces: Seq<Vec<usize>>, n: nat) -> Seq<Seq<usize>> {
    adjacency_upto(faces, n, faces.len() as int)
}

/// The first `a` lists laid end to end.
pub open spec fn concat_upto(rows: Seq<Seq<usize>>, a: int) -> Seq<usize>
    decreases a,
{
    if a <= 0 {
        Seq::empty()
    } else {
        concat_upto(rows, a - 1) + rows[a - 1]
    }
}

/// The offsets of the dual graph of `faces`: where each element's list starts.
pub open spec fn dual_offsets(faces: Seq<Vec<usize>>, n: nat) -> Seq<usize> {
    Seq::new(n + 1, |a: int| concat_upto(adjacency(faces, n), a).len() as usize)
}

/// The indices of the dual graph of `faces`: all adjacency lists end to end.
pub open spec fn dual_indices(faces: Seq<Vec<usize>>, n: nat) -> Seq<usize> {
    concat_upto(adjacency(faces, n), n as int)
}

pub open spec fn rows_of(adj: Seq<Vec<usize>>) -> Seq<Seq<usize>> {
    adj.map_values(|v: Vec<usize>| v@)
}

proof fn lemma_shares_face_before_step(faces: Seq<Vec<usize>>, f: int)
    requires
        0 <= f < faces.len(),
    ensures
        forall|x: int, y: int|
            #[trigger] shares_face_before(faces, f + 1, x, y) <==> (shares_face_before(
                faces,
                f,
                x,
                y,
            ) || is_face_between(faces[f]@, x, y)),
{
    assert forall|x: int, y: int|
        #[trigger] shares_face_before(faces, f + 1, x, y) <==> (shares_face_before(faces, f, x, y)
            || is_face_between(faces[f]@, x, y)) by {
        if shares_face_before(faces, f + 1, x, y) {
            let g = choose|g: int| 0 <= g < f + 1 && #[trigger] is_face_between(faces[g]@, x, y);
            if g < f {
                assert(shares_face_before(faces, f, x, y));
            }
        }
        if shares_face_before(faces, f, x, y) {
            let g = choose|g: int| 0 <= g < f && #[trigger] is_face_between(faces[g]@, x, y);
            assert(0 <= g < f + 1);
        }
        if is_face_between(faces[f]@, x, y) {
            assert(0 <= f < f + 1);
        }
    }
}

proof fn lemma_shares_face_before_symmetric(faces: Seq<Vec<usize>>, m: int)
    ensures
        forall|x: int, y: int|
            #[trigger] shares_face_before(faces, m, x, y) <==> shares_face_before(faces, m, y, x),
{
    assert forall|x: int, y: int|
        #[trigger] shares_face_before(faces, m, x, y) implies shares_face_before(faces, m, y, x) by {
        let g = choose|g: int| 0 <= g < m && #[trigger] is_face_between(faces[g]@, x, y);
        assert(is_face_between(faces[g]@, y, x));
    }
}

/// Adjacency in a dual graph is symmetric: `b` is a neighbour of `a` exactly
/// when `a` is a neighbour of `b`.
pub proof fn lemma_dual_graph_symmetric(
    g: CsrGraph,
    faces: Seq<Vec<usize>>,
    n: nat,
    a: usize,
    b: usize,
)
    requires
        g.is_dual_of(faces, n),
        a < n,
        b < n,
    ensures
        g.neighbors(a as int).contains(b) <==> g.neighbors(b as int).contains(a),
{
    lemma_shares_face_before_symmetric(faces, faces.len() as int);
    assert(g.neighbors(a as int).contains(b) <==> shares_face(faces, a as int, b as int));
    assert(g.neighbors(b as int).contains(a) <==> shares_face(faces, b as int, a as int));
}

fn contains(v: &Vec<usize>, x: usize) -> (r: bool)
    ensures
        r == v@.contains(x),
{
    let mut i: usize = 0;
    while i < v.len()
        invariant
            0 <= i <= v.len(),
            forall|k: int| 0 <= k < i ==> v@[k] != x,
        decreases v.len() - i,
    {
        if v[i] == x {
            return true;
        }
        i += 1;
    }
    false
}

/// Builds the dual graph of a mesh of `n_elems` elements from the elements
/// of each of its faces: two elements are neighbours when a face lies
/// between them, and each pair is listed once however many faces it shares.
/// Each element's neighbours are listed in the order of the faces that
/// first join them to it.
pub fn build_dual_graph(n_elems: usize, faces: &Vec<Vec<usize>>) -> (g: CsrGraph)
    requires
        valid_faces(faces@, n_elems as nat),
    ensures
        g.is_dual_of(faces@, n_elems as nat),
        g.ptr@ == dual_offsets(faces@, n_elems as nat),
        g.indices@ == dual_indices(faces@, n_elems as nat),
{
    let mut adj: Vec<Vec<usize>> = Vec::new();
    let mut a: usize = 0;
    while a < n_elems
        invariant
            0 <= a <= n_elems,
            adj@.len() == a,
            forall|x: int| 0 <= x < a ==> (#[trigger] adj@[x])@.len() == 0,
        decreases n_elems - a,
    {
        adj.push(Vec::new());
        a += 1;
    }
    assert(rows_of(adj@) =~= adjacency_upto(faces@, n_elems as nat, 0)) by {
        assert forall|x: int| 0 <= x < n_elems implies #[trigger] rows_of(adj@)[x]
            =~= adjacency_upto(faces@, n_elems as nat, 0)[x] by {
            assert(adj@[x]@.len() == 0);
        }
    }
    let mut f: usize = 0;
    while f < faces.len()
        invariant
            0 <= f <= faces@.len(),
            adj@.len() == n_elems,
            valid_faces(faces@, n_elems as nat),
            rows_of(adj@) == adjacency_upto(faces@, n_elems as nat, f as int),
            forall|x: int, y: usize|
                0 <= x < n_elems ==> (#[trigger] adj@[x]@.contains(y) <==> shares_face_before(
                    faces@,
                    f as int,
                    x,
                    y as int,
                )),
            forall|x: int| 0 <= x < n_elems ==> (#[trigger] adj@[x])@.no_duplicates(),
            forall|x: int, k: int|
                0 <= x < n_elems && 0 <= k < adj@[x]@.len() ==> #[trigger] adj@[x]@[k] < n_elems,
        decreases faces@.len() - f,
    {
        let face = &faces[f];
        proof {
            lemma_shares_face_before_step(faces@, f as int);
            lemma_shares_face_before_symmetric(faces@, f as int);
        }
        assert(valid_face(faces@[f as int]@, n_elems as nat));
        if face.len() == 2 {
            let a = face[0];
            let b = face[1];
            assert(rows_of(adj@)[a as int] == adj@[a as int]@);
            assert(shares_face_before(faces@, f as int, a as int, b as int)
                <==> shares_face_before(faces@, f as int, b as int, a as int));
            if !contains(&adj[a], b) {
                assert(!adj@[b as int]@.contains(a));
                let ghost old_adj = adj@;
                adj[a].push(b);
                adj[b].push(a);
                assert(rows_of(adj@) =~= adjacency_upto(faces@, n_elems as nat, f + 1)) by {
                    assert(rows_of(old_adj)[b as int] == old_adj[b as int]@);
                }
                assert forall|x: int, y: usize|
                    0 <= x < n_elems implies (#[trigger] adj@[x]@.contains(y)
                        <==> shares_face_before(faces@, f + 1, x, y as int)) by {
                    if x == a || x == b {
                        let other = if x == a { b } else { a };
                        assert(adj@[x]@ == old_adj[x]@.push(other));
                        assert(is_face_between(faces@[f as int]@, x, other as int));
                        if adj@[x]@.contains(y) && y != other {
                            let k = choose|k: int| 0 <= k < adj@[x]@.len() && adj@[x]@[k] == y;
                            assert(old_adj[x]@[k] == y);
                        }
                        if old_adj[x]@.contains(y) {
                            let k = choose|k: int| 0 <= k < old_adj[x]@.len() && old_adj[x]@[k] == y;
                            assert(adj@[x]@[k] == y);
                        }
                        if y == other {
                            assert(adj@[x]@[adj@[x]@.len() - 1] == y);
                        }
                    } else {
                        assert(adj@[x] == old_adj[x]);
                    }
                }
                assert forall|x: int| 0 <= x < n_elems implies (#[trigger] adj@[x])@.no_duplicates() by {
                    if x == a || x == b {
                        assert(old_adj[x]@.no_duplicates());
                        assert forall|i: int, j: int|
                            0 <= i < j < adj@[x]@.len() implies adj@[x]@[i] != adj@[x]@[j] by {
                            let other = if x == a { b } else { a };
                            assert(adj@[x]@ == old_adj[x]@.push(other));
                            assert(old_adj[x]@[i] == adj@[x]@[i]);
                            if j < adj@[x]@.len() - 1 {
                                assert(old_adj[x]@[j] == adj@[x]@[j]);
                            } else {
                                assert(!old_adj[x]@.contains(other));
                            }
                        }
                    } else {
                        assert(adj@[x] == old_adj[x]);
                    }
                }
                assert forall|x: int, k: int|
                    0 <= x < n_elems && 0 <= k < adj@[x]@.len() implies #[trigger] adj@[x]@[k]
                    < n_elems by {
                    if k < old_adj[x]@.len() {
                        assert(adj@[x]@[k] == old_adj[x]@[k]);
                    }
                }
            } else {
                assert forall|x: int, y: usize|
                    0 <= x < n_elems implies (#[trigger] adj@[x]@.contains(y)
                        <==> shares_face_before(faces@, f + 1, x, y as int)) by {
                    if is_face_between(faces@[f as int]@, x, y as int) {
                        assert(x == a || x == b);
                    }
                }
            }
        } else {
            assert forall|x: int, y: usize|
                0 <= x < n_elems implies (#[trigger] adj@[x]@.contains(y) <==> shares_face_before(
                    faces@,
                    f + 1,
                    x,
                    y as int,
                )) by {
                assert(!is_face_between(faces@[f as int]@, x, y as int));
            }
        }
        f += 1;
    }
    let g = flatten(n_elems, &adj);
    assert(g.ptr@ =~= dual_offsets(faces@, n_elems as nat));
    g
}

/// Lays adjacency lists end to end.
fn flatten(n_elems: usize, adj: &Vec<Vec<usize>>) -> (g: CsrGraph)
    requires
        adj@.len() == n_elems,
        forall|x: int, k: int|
            0 <= x < n_elems && 0 <= k < adj@[x]@.len() ==> #[trigger] adj@[x]@[k] < n_elems,
    ensures
        g.wf(n_elems as nat),
        forall|a: int| 0 <= a < n_elems ==> #[trigger] g.neighbors(a) == adj@[a]@,
        g.indices@ == concat_upto(rows_of(adj@), n_elems as int),
        forall|a: int| 0 <= a <= n_elems ==> #[trigger] g.ptr@[a] == concat_upto(rows_of(adj@), a).len(),
{
    let mut ptr: Vec<usize> = Vec::new();
    let mut indices: Vec<usize> = Vec::new();
    ptr.push(0);
    let mut a: usize = 0;
    while a < n_elems
        invariant
            0 <= a <= n_elems,
            adj@.len() == n_elems,
            forall|x: int, k: int|
                0 <= x < n_elems && 0 <= k < adj@[x]@.len() ==> #[trigger] adj@[x]@[k] < n_elems,
            ptr@.len() == a + 1,
            ptr@[0] == 0,
            ptr@[a as int] == indices@.len(),
            indices@ == concat_upto(rows_of(adj@), a as int),
            forall|c: int| 0 <= c <= a ==> #[trigger] ptr@[c] == concat_upto(rows_of(adj@), c).len(),
            forall|i: int, j: int| 0 <= i <= j <= a ==> ptr@[i] <= ptr@[j],
            forall|k: int| 0 <= k < indices@.len() ==> indices@[k] < n_elems,
            forall|c: int|
                0 <= c < a ==> #[trigger] indices@.subrange(ptr@[c] as int, ptr@[c + 1] as int)
                    == adj@[c]@,
        decreases n_elems - a,
    {
        let row = &adj[a];
        let ghost start = indices@;
        let mut j: usize = 0;
        while j < row.len()
            invariant
                0 <= j <= row@.len(),
                row@ == adj@[a as int]@,
                forall|k: int| 0 <= k < row@.len() ==> row@[k] < n_elems,
                indices@ == start + row@.subrange(0, j as int),
            decreases row@.len() - j,
        {
            indices.push(row[j]);
            j += 1;
            assert(indices@ =~= start + row@.subrange(0, j as int));
        }
        assert(row@.subrange(0, j as int) =~= row@);
        assert(rows_of(adj@)[a as int] == row@);
        assert(indices@ == concat_upto(rows_of(adj@), a + 1));
        assert forall|k: int| 0 <= k < indices@.len() implies indices@[k] < n_elems by {
            if k >= start.len() {
                assert(indices@[k] == row@[k - start.len()]);
            }
        }
        let ghost old_ptr = ptr@;
        ptr.push(indices.len());
        assert forall|c: int|
            0 <= c < a + 1 implies #[trigger] indices@.subrange(ptr@[c] as int, ptr@[c + 1] as int)
                == adj@[c]@ by {
            if c < a {
                assert(ptr@[c] == old_ptr[c] && ptr@[c + 1] == old_ptr[c + 1]);
                assert(old_ptr[c + 1] <= old_ptr[a as int]);
                assert(indices@.subrange(ptr@[c] as int, ptr@[c + 1] as int) =~= start.subrange(
                    ptr@[c] as int,
                    ptr@[c + 1] as int,
                ));
            } else {
                assert(indices@.subrange(ptr@[c] as int, ptr@[c + 1] as int) =~= row@);
            }
        }
        a += 1;
    }
    CsrGraph { ptr, indices }
}

} // verus!
