//! Mesh preparation for flat shading: each face is shaded with the data of
//! its first (provoking) vertex, so no two faces may share that vertex.

use vstd::prelude::*;
use std::collections::HashSet;

verus! {

broadcast use vstd::std_specs::hash::group_hash_axioms;

/// The number of faces `indices` is read as: one per started group of
/// three indices.
pub open spec fn face_count(indices: Seq<u32>) -> int {
    (indices.len() as int + 2) / 3
}

/// The first vertex of face `k`.
pub open spec fn first_corner(indices: Seq<u32>, k: int) -> u32 {
    indices[3 * k]
}

/// Face `k` starts at a vertex an earlier face already starts at.
pub open spec fn repeated_first(indices: Seq<u32>, k: int) -> bool {
    exists|j: int| 0 <= j < k && #[trigger] first_corner(indices, j) == first_corner(indices, k)
}

/// How many of the faces before face `k` start at an already used vertex.
pub open spec fn repeats_before(indices: Seq<u32>, k: int) -> int
    decreases k,
{
    if k <= 0 {
        0
    } else {
        repeats_before(indices, k - 1) + if repeated_first(indices, k - 1) { 1int } else { 0int }
    }
}

proof fn lemma_repeats_monotone(indices: Seq<u32>, j: int, k: int)
    requires
        0 <= j <= k,
    ensures
        repeats_before(indices, j) <= repeats_before(indices, k),
        repeats_before(indices, k) <= k,
        0 <= repeats_before(indices, j),
    decreases k,
{
    if k > j {
        lemma_repeats_monotone(indices, j, k - 1);
    } else if k > 0 {
        lemma_repeats_monotone(indices, k - 1, k - 1);
    }
}

/// Face `k` after the copying: a face that starts at an already used
/// vertex starts at its own copy of it, appended after the given
/// vertices in face order; any other face keeps its first index.
pub open spec fn face_result<V>(vertices: Seq<V>, indices: Seq<u32>, new_vertices: Seq<V>, new_indices: Seq<u32>, k: int) -> bool {
    if repeated_first(indices, k) {
        &&& new_indices[3 * k] == vertices.len() + repeats_before(indices, k)
        &&& new_vertices[vertices.len() + repeats_before(indices, k)] == vertices[first_corner(indices, k) as int]
    } else {
        new_indices[3 * k] == indices[3 * k]
    }
}

/// What `ensure_unique_provoking_vertices` returns for `vertices` and
/// `indices`: the vertices followed by one copy of the first vertex of each
/// face that starts at an already used vertex, and the indices with the
/// first index of each such face pointing to its copy.
pub open spec fn provoking_result<V>(vertices: Seq<V>, indices: Seq<u32>, new_vertices: Seq<V>, new_indices: Seq<u32>) -> bool {
    &&& new_vertices.len() == vertices.len() + repeats_before(indices, face_count(indices))
    &&& new_vertices.take(vertices.len() as int) == vertices
    &&& new_indices.len() == indices.len()
    &&& forall|i: int| 0 <= i < indices.len() && i % 3 != 0 ==> #[trigger] new_indices[i] == indices[i]
    &&& forall|k: int| 0 <= k < face_count(indices) ==> #[trigger] face_result(vertices, indices, new_vertices, new_indices, k)
}

/// Copies the first vertex of every face that starts at a vertex an earlier
/// face already starts at, so that each face has a provoking vertex of its
/// own.
pub fn ensure_unique_provoking_vertices<V: Copy>(vertices: &[V], indices: &[u32]) -> (r: (Vec<V>, Vec<u32>))
    requires
        forall|k: int| 0 <= k < face_count(indices@) && repeated_first(indices@, k)
            ==> #[trigger] first_corner(indices@, k) < vertices@.len(),
        vertices@.len() + face_count(indices@) <= u32::MAX,
    ensures
        provoking_result(vertices@, indices@, r.0@, r.1@),
{
    let mut new_vertices: Vec<V> = Vec::new();
    let mut i: usize = 0;
    while i < vertices.len()
        invariant
            i <= vertices@.len(),
            new_vertices@ == vertices@.take(i as int),
        decreases vertices@.len() - i,
    {
        new_vertices.push(vertices[i]);
        proof {
            assert(vertices@.take(i + 1) =~= vertices@.take(i as int).push(vertices@[i as int]));
        }
        i = i + 1;
    }
    proof {
        assert(vertices@.take(vertices@.len() as int) =~= vertices@);
    }
    let mut new_indices: Vec<u32> = Vec::new();
    let mut i: usize = 0;
    while i < indices.len()
        invariant
            i <= indices@.len(),
            new_indices@ == indices@.take(i as int),
        decreases indices@.len() - i,
    {
        new_indices.push(indices[i]);
        proof {
            assert(indices@.take(i + 1) =~= indices@.take(i as int).push(indices@[i as int]));
        }
        i = i + 1;
    }
    proof {
        assert(indices@.take(indices@.len() as int) =~= indices@);
    }
    let ghost nv = vertices@.len();
    let ghost faces = face_count(indices@);
    let n_faces: usize = indices.len() / 3 + if indices.len() % 3 == 0 { 0 } else { 1 };
    proof {
        assert(n_faces == faces);
    }
    let len = indices.len();
    let mut provs_used: HashSet<u32> = HashSet::new();
    let mut face: usize = 0;
    while face < n_faces
        invariant
            len == indices@.len(),
            nv == vertices@.len(),
            faces == face_count(indices@),
            n_faces == faces,
            0 <= face <= faces,
            forall|k: int| 0 <= k < faces && repeated_first(indices@, k)
                ==> #[trigger] first_corner(indices@, k) < vertices@.len(),
            nv + faces <= u32::MAX,
            provs_used@ == Set::new(|v: u32| exists|j: int| 0 <= j < face && #[trigger] first_corner(indices@, j) == v),
            new_vertices@.len() == nv + repeats_before(indices@, face as int),
            new_vertices@.take(nv as int) == vertices@,
            new_indices@.len() == indices@.len(),
            forall|i: int| 0 <= i < indices@.len() && (i % 3 != 0 || i >= 3 * face) ==> #[trigger] new_indices@[i] == indices@[i],
            forall|k: int| 0 <= k < face ==> #[trigger] face_result(vertices@, indices@, new_vertices@, new_indices@, k),
        decreases faces - face,
    {
        proof {
            assert(face * 3 < len);
        }
        let first = indices[face * 3];
        proof {
            assert(first == first_corner(indices@, face as int));
            lemma_repeats_monotone(indices@, face as int, faces);
            assert forall|k: int| 0 <= k < face && repeated_first(indices@, k)
                implies #[trigger] repeats_before(indices@, k) < repeats_before(indices@, face as int) by {
                lemma_repeats_monotone(indices@, k + 1, face as int);
            }
        }
        let ghost old_vertices = new_vertices@;
        let ghost old_indices = new_indices@;
        if provs_used.contains(&first) {
            proof {
                let j = choose|j: int| 0 <= j < face && #[trigger] first_corner(indices@, j) == first;
                assert(repeated_first(indices@, face as int));
                lemma_repeats_monotone(indices@, face as int, face as int);
            }
            new_vertices.push(vertices[first as usize]);
            let copy = new_vertices.len() as u32 - 1;
            new_indices.set(face * 3, copy);
            proof {
                assert(repeats_before(indices@, face + 1) == repeats_before(indices@, face as int) + 1);
                assert(new_vertices@.take(nv as int) =~= vertices@) by {
                    assert(new_vertices@.take(nv as int) =~= old_vertices.take(nv as int));
                }
                assert forall|k: int| 0 <= k < face + 1 implies #[trigger] face_result(vertices@, indices@, new_vertices@, new_indices@, k) by {
                    if k < face {
                        assert(face_result(vertices@, indices@, old_vertices, old_indices, k));
                        assert(new_indices@[3 * k] == old_indices[3 * k]);
                        if repeated_first(indices@, k) {
                            assert(repeats_before(indices@, k) < repeats_before(indices@, face as int));
                            assert(new_vertices@[nv + repeats_before(indices@, k)] == old_vertices[nv + repeats_before(indices@, k)]);
                        }
                    }
                }
            }
        } else {
            proof {
                assert(!repeated_first(indices@, face as int)) by {
                    if repeated_first(indices@, face as int) {
                        let j = choose|j: int| 0 <= j < face && #[trigger] first_corner(indices@, j) == first_corner(indices@, face as int);
                        assert(provs_used@.contains(first));
                    }
                }
                assert(repeats_before(indices@, face + 1) == repeats_before(indices@, face as int));
                assert(new_indices@[3 * face] == indices@[3 * face]);
                assert forall|k: int| 0 <= k < face + 1 implies #[trigger] face_result(vertices@, indices@, new_vertices@, new_indices@, k) by {
                    if k < face {
                        assert(face_result(vertices@, indices@, old_vertices, old_indices, k));
                    }
                }
            }
            provs_used.insert(first);
        }
        proof {
            assert(provs_used@ =~= Set::new(|v: u32| exists|j: int| 0 <= j < face + 1 && #[trigger] first_corner(indices@, j) == v)) by {
                assert forall|v: u32| provs_used@.contains(v) implies exists|j: int| 0 <= j < face + 1 && #[trigger] first_corner(indices@, j) == v by {
                    if v == first {
                        assert(first_corner(indices@, face as int) == v);
                    }
                }
            }
        }
        face = face + 1;
    }
    proof {
        assert forall|i: int| 0 <= i < indices@.len() && i % 3 != 0 implies #[trigger] new_indices@[i] == indices@[i] by {
        }
        assert(face == face_count(indices@));
    }
    (new_vertices, new_indices)
}

/// Law of the provoking vertices: after `ensure_unique_provoking_vertices`
/// on a mesh whose indices all name one of its vertices, no two faces start
/// at the same vertex, and every index names a vertex with the same data as
/// before.
pub proof fn lemma_provoking_vertices_unique<V>(vertices: Seq<V>, indices: Seq<u32>, new_vertices: Seq<V>, new_indices: Seq<u32>)
    requires
        forall|i: int| 0 <= i < indices.len() ==> #[trigger] indices[i] < vertices.len(),
        provoking_result(vertices, indices, new_vertices, new_indices),
    ensures
        forall|j: int, k: int| 0 <= j < k < face_count(indices)
            ==> #[trigger] new_indices[3 * j] != #[trigger] new_indices[3 * k],
        forall|i: int| 0 <= i < indices.len() ==> (#[trigger] new_indices[i] as int) < new_vertices.len()
            && new_vertices[new_indices[i] as int] == vertices[indices[i] as int],
{
    let nv = vertices.len() as int;
    let faces = face_count(indices);
    assert forall|j: int, k: int| 0 <= j < k < faces implies #[trigger] new_indices[3 * j] != #[trigger] new_indices[3 * k] by {
        lemma_repeats_monotone(indices, j, k);
        assert(3 * j < indices.len() && 3 * k < indices.len());
        assert(face_result(vertices, indices, new_vertices, new_indices, j));
        assert(face_result(vertices, indices, new_vertices, new_indices, k));
        if repeated_first(indices, k) {
            if repeated_first(indices, j) {
                lemma_repeats_monotone(indices, j + 1, k);
                assert(repeats_before(indices, j + 1) == repeats_before(indices, j) + 1);
            } else {
                assert(indices[3 * j] < nv);
            }
        } else {
            if repeated_first(indices, j) {
                assert(indices[3 * k] < nv);
            } else {
                assert(first_corner(indices, j) != first_corner(indices, k));
            }
        }
    }
    assert forall|i: int| 0 <= i < indices.len() implies (#[trigger] new_indices[i] as int) < new_vertices.len()
        && new_vertices[new_indices[i] as int] == vertices[indices[i] as int] by {
        lemma_repeats_monotone(indices, 0, faces);
        if i % 3 != 0 {
            assert(new_vertices[indices[i] as int] == new_vertices.take(nv)[indices[i] as int]);
        } else {
            let k = i / 3;
            assert(i == 3 * k);
            assert(0 <= k < faces);
            assert(face_result(vertices, indices, new_vertices, new_indices, k));
            lemma_repeats_monotone(indices, k, faces);
            if repeated_first(indices, k) {
                lemma_repeats_monotone(indices, k + 1, faces);
                assert(repeats_before(indices, k + 1) == repeats_before(indices, k) + 1);
            } else {
                assert(new_vertices[indices[i] as int] == new_vertices.take(nv)[indices[i] as int]);
            }
        }
    }
}

} // verus!
