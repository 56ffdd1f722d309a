use std::collections::BTreeMap;

use mesh_partition::dual_graph::build_dual_graph;
use mesh_partition::mesh::{backend_is_available, Backend, PartitionError, SimplexMesh};

/// The unit square cut into two triangles.
fn square() -> Vec<Vec<usize>> {
    vec![vec![0, 1, 2], vec![0, 2, 3]]
}

/// The unit cube cut into five tetrahedra.
fn cube() -> Vec<Vec<usize>> {
    vec![
        vec![0, 1, 2, 5],
        vec![0, 2, 7, 5],
        vec![0, 2, 3, 7],
        vec![0, 5, 7, 4],
        vec![2, 7, 5, 6],
    ]
}

fn midpoint(mids: &mut BTreeMap<(usize, usize), usize>, next: &mut usize, a: usize, b: usize) -> usize {
    let key = if a < b { (a, b) } else { (b, a) };
    *mids.entry(key).or_insert_with(|| {
        *next += 1;
        *next - 1
    })
}

/// Uniform refinement: each triangle into four, each tetrahedron into eight.
fn split(elems: &[Vec<usize>]) -> Vec<Vec<usize>> {
    let mut next = elems.iter().flatten().copied().max().map_or(0, |v| v + 1);
    let mut mids = BTreeMap::new();
    let mut out = Vec::new();
    for e in elems {
        if e.len() == 3 {
            let (a, b, c) = (e[0], e[1], e[2]);
            let ab = midpoint(&mut mids, &mut next, a, b);
            let bc = midpoint(&mut mids, &mut next, b, c);
            let ca = midpoint(&mut mids, &mut next, c, a);
            out.push(vec![a, ab, ca]);
            out.push(vec![b, bc, ab]);
            out.push(vec![c, ca, bc]);
            out.push(vec![ab, bc, ca]);
        } else {
            let (v0, v1, v2, v3) = (e[0], e[1], e[2], e[3]);
            let m01 = midpoint(&mut mids, &mut next, v0, v1);
            let m02 = midpoint(&mut mids, &mut next, v0, v2);
            let m03 = midpoint(&mut mids, &mut next, v0, v3);
            let m12 = midpoint(&mut mids, &mut next, v1, v2);
            let m13 = midpoint(&mut mids, &mut next, v1, v3);
            let m23 = midpoint(&mut mids, &mut next, v2, v3);
            out.push(vec![v0, m01, m02, m03]);
            out.push(vec![v1, m01, m12, m13]);
            out.push(vec![v2, m02, m12, m23]);
            out.push(vec![v3, m03, m13, m23]);
            out.push(vec![m02, m13, m01, m12]);
            out.push(vec![m02, m13, m12, m23]);
            out.push(vec![m02, m13, m23, m03]);
            out.push(vec![m02, m13, m03, m01]);
        }
    }
    out
}

fn refine(mut elems: Vec<Vec<usize>>, times: usize) -> Vec<Vec<usize>> {
    for _ in 0..times {
        elems = split(&elems);
    }
    elems
}

/// The elements of each face, faces ordered by their sorted vertices.
fn faces_to_elems(elems: &[Vec<usize>]) -> Vec<Vec<usize>> {
    let mut faces: BTreeMap<Vec<usize>, Vec<usize>> = BTreeMap::new();
    for (i, e) in elems.iter().enumerate() {
        for skip in 0..e.len() {
            let mut f: Vec<usize> = e
                .iter()
                .enumerate()
                .filter(|(k, _)| *k != skip)
                .map(|(_, v)| *v)
                .collect();
            f.sort();
            faces.entry(f).or_default().push(i);
        }
    }
    faces.into_values().collect()
}

fn mesh_of(elems: &[Vec<usize>]) -> SimplexMesh {
    let mut mesh = SimplexMesh::new(vec![1; elems.len()]);
    assert!(mesh.set_faces_to_elems(faces_to_elems(elems)));
    mesh
}

fn quality(mesh: &SimplexMesh) -> f64 {
    let (cut, total) = mesh.cut_faces().unwrap();
    cut as f64 / total as f64
}

#[test]
fn test_partition_metis_2d() {
    let mut mesh = mesh_of(&refine(square(), 5));
    assert_eq!(mesh.partition_metis(4), Ok(()));
    let q = quality(&mesh);
    assert!(q < 0.03);
}

#[test]
fn test_partition_metis_3d() {
    let mut mesh = mesh_of(&refine(cube(), 4));
    assert_eq!(mesh.partition_metis(4), Ok(()));
    let q = quality(&mesh);
    assert!(q < 0.02);
}

#[test]
fn partition_labels_every_element() {
    let mut mesh = mesh_of(&refine(square(), 3));
    assert_eq!(mesh.partition(Backend::Metis, 4), Ok(()));
    assert_eq!(mesh.etags().len(), 128);
    assert!(mesh.etags().iter().all(|&t| (1..=4).contains(&t)));
    for p in 1..=4 {
        assert!(mesh.etags().contains(&p));
    }
}

#[test]
fn two_elements_two_parts_differ() {
    let mut mesh = mesh_of(&square());
    assert_eq!(mesh.partition_metis(2), Ok(()));
    let t = mesh.etags();
    assert_ne!(t[0], t[1]);
    assert!(t.iter().all(|&x| x == 1 || x == 2));
    assert_eq!(mesh.cut_faces(), Ok((1, 5)));
}

#[test]
fn single_part_tags_everything_one() {
    let mut mesh = SimplexMesh::new(vec![3, 7, 9, 2]);
    let elems = refine(vec![vec![0, 1, 2]], 1);
    assert!(mesh.set_faces_to_elems(faces_to_elems(&elems)));
    assert!(mesh.has_nonuniform_tags());
    assert_eq!(mesh.partition_metis(1), Ok(()));
    assert_eq!(mesh.etags(), &vec![1, 1, 1, 1]);
    assert!(!mesh.has_nonuniform_tags());
}

#[test]
fn partition_twice_same_cut_ratio() {
    let mut mesh = mesh_of(&refine(cube(), 2));
    assert_eq!(mesh.partition_metis(4), Ok(()));
    let first = mesh.cut_faces().unwrap();
    let tags = mesh.etags().clone();
    assert_eq!(mesh.partition_metis(4), Ok(()));
    assert_eq!(mesh.cut_faces().unwrap(), first);
    assert_eq!(mesh.etags(), &tags);
}

#[test]
fn dual_graph_is_symmetric() {
    let elems = refine(cube(), 2);
    let faces = faces_to_elems(&elems);
    let g = build_dual_graph(elems.len(), &faces);
    assert_eq!(g.ptr.len(), elems.len() + 1);
    for a in 0..elems.len() {
        for &b in &g.indices[g.ptr[a]..g.ptr[a + 1]] {
            assert!(g.indices[g.ptr[b]..g.ptr[b + 1]].contains(&a));
        }
    }
}

#[test]
fn dual_graph_of_split_triangle() {
    let elems = refine(vec![vec![0, 1, 2]], 1);
    let faces = faces_to_elems(&elems);
    assert_eq!(faces.len(), 9);
    let g = build_dual_graph(4, &faces);
    assert_eq!(g.ptr, vec![0, 1, 2, 3, 6]);
    assert_eq!(&g.indices[0..3], &[3, 3, 3]);
    let mut center: Vec<usize> = g.indices[3..6].to_vec();
    center.sort();
    assert_eq!(center, vec![0, 1, 2]);
}

#[test]
fn dual_graph_lists_a_pair_once() {
    let faces = vec![vec![0, 1], vec![1, 0], vec![0], vec![2]];
    let g = build_dual_graph(3, &faces);
    assert_eq!(g.ptr, vec![0, 1, 2, 2]);
    assert_eq!(g.indices, vec![1, 0]);
}

#[test]
fn dual_graph_built_lazily() {
    let mut mesh = mesh_of(&square());
    assert!(mesh.elem_to_elems().is_none());
    assert_eq!(mesh.partition_metis(2), Ok(()));
    let g = mesh.elem_to_elems().as_ref().unwrap();
    assert_eq!(g.ptr, vec![0, 1, 2]);
    assert_eq!(g.indices, vec![1, 0]);
}

#[test]
fn quality_needs_face_connectivity() {
    let mesh = SimplexMesh::new(vec![1, 2, 3]);
    assert_eq!(mesh.cut_faces(), Err(PartitionError::MissingConnectivity));
}

#[test]
fn uniform_tags_cut_nothing() {
    let mesh = mesh_of(&refine(square(), 2));
    let (cut, total) = mesh.cut_faces().unwrap();
    assert_eq!(cut, 0);
    assert!(total > 0);
    assert_eq!(quality(&mesh), 0.0);
}

#[test]
fn cut_count_exact() {
    let elems = refine(vec![vec![0, 1, 2]], 1);
    let mut mesh = SimplexMesh::new(vec![1, 1, 2, 2]);
    assert!(mesh.set_faces_to_elems(faces_to_elems(&elems)));
    // Element 3 is the centre triangle; it neighbours 0 (tag 1) and 1, 2.
    let (cut, total) = mesh.cut_faces().unwrap();
    assert_eq!(total, 9);
    assert_eq!(cut, 2);
    let q = quality(&mesh);
    assert!((0.0..=1.0).contains(&q));
}

#[test]
fn scotch_is_unavailable() {
    let mut mesh = SimplexMesh::new(vec![5, 6]);
    assert_eq!(
        mesh.partition_scotch(2),
        Err(PartitionError::BackendUnavailable(Backend::Scotch))
    );
    assert_eq!(mesh.etags(), &vec![5, 6]);
    assert!(mesh.set_faces_to_elems(faces_to_elems(&square())));
    assert_eq!(
        mesh.partition(Backend::Scotch, 2),
        Err(PartitionError::BackendUnavailable(Backend::Scotch))
    );
    assert!(mesh.elem_to_elems().is_none());
    assert_eq!(mesh.etags(), &vec![5, 6]);
}

#[test]
fn invalid_part_counts() {
    let mut mesh = mesh_of(&square());
    assert_eq!(mesh.partition_metis(0), Err(PartitionError::InvalidPartitionCount));
    assert_eq!(mesh.partition_metis(3), Err(PartitionError::InvalidPartitionCount));
    assert_eq!(mesh.etags(), &vec![1, 1]);
}

#[test]
fn partition_needs_face_connectivity() {
    let mut mesh = SimplexMesh::new(vec![1, 1]);
    assert_eq!(mesh.partition_metis(2), Err(PartitionError::MissingConnectivity));
}

#[test]
fn bad_labels_leave_tags() {
    let mut mesh = SimplexMesh::new(vec![4, 4, 4]);
    assert_eq!(mesh.assign_partition(2, &vec![0, 2, 1]), Err(PartitionError::BackendFailure));
    assert_eq!(mesh.assign_partition(2, &vec![0, -1, 1]), Err(PartitionError::BackendFailure));
    assert_eq!(mesh.assign_partition(2, &vec![0, 1]), Err(PartitionError::BackendFailure));
    assert_eq!(mesh.etags(), &vec![4, 4, 4]);
    assert_eq!(mesh.assign_partition(2, &vec![1, 0, 1]), Ok(()));
    assert_eq!(mesh.etags(), &vec![2, 1, 2]);
}

#[test]
fn invalid_faces_are_refused() {
    let mut mesh = SimplexMesh::new(vec![1, 1]);
    assert!(!mesh.set_faces_to_elems(vec![vec![0, 2]]));
    assert!(!mesh.set_faces_to_elems(vec![vec![1, 1]]));
    assert!(!mesh.set_faces_to_elems(vec![vec![]]));
    assert!(!mesh.set_faces_to_elems(vec![vec![0, 1, 0]]));
    assert_eq!(mesh.cut_faces(), Err(PartitionError::MissingConnectivity));
    assert!(mesh.set_faces_to_elems(vec![vec![0, 1], vec![0]]));
    assert_eq!(mesh.n_elems(), 2);
}

#[test]
fn only_metis_is_available() {
    assert!(backend_is_available(Backend::Metis));
    assert!(!backend_is_available(Backend::Scotch));
}

#[test]
fn cached_and_fresh_dual_graph_agree() {
    let elems = refine(square(), 2);
    let faces = faces_to_elems(&elems);
    let fresh = build_dual_graph(elems.len(), &faces);
    let mut mesh = mesh_of(&elems);
    mesh.compute_elem_to_elems();
    let cached = mesh.elem_to_elems().as_ref().unwrap();
    assert_eq!(cached.ptr, fresh.ptr);
    assert_eq!(cached.indices, fresh.indices);
}
